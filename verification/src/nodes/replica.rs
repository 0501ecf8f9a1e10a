//! The replica: request intake, windowed proposing, decision ordering and
//! execution, and in-band reconfiguration.  Decisions may arrive out of
//! order and more than once; the replica performs them strictly in slot
//! order, executes each distinct command at most once, and keeps at most
//! `WINDOW` proposals in flight beyond the last performed slot.

use crate::constants::WINDOW;
use crate::messages::{env_is_propose, Message, ProposeMessage, SendableMessage};
use crate::messages;
use crate::nodes::clock::{ClockAction, ClockProvider};
use crate::nodes::mailbox::Mailbox;
use crate::store::KeyMap;
use crate::types::{
    cmd_eq_spec, cfg_eq_spec, command_eq, lemma_cmd_eq_sym, lemma_cmd_eq_trans, Address, Command,
    CommandType, Config, LeaderId, PaxosError, ReplicaId,
};
use vstd::prelude::*;

verus! {

/// The messages a replica handles.
pub enum ReplicaMessageIn {
    Request(messages::RequestMessage),
    Decision(messages::DecisionMessage),
}

/// `envs` is one Propose per leader of `cfg`, in the configuration's order.
pub open spec fn propose_fanout(
    envs: Seq<SendableMessage>,
    cfg: Config,
    src_addr: Address,
    me: ReplicaId,
    slot: u64,
    c: Command,
) -> bool {
    &&& envs.len() == cfg.leaders@.len()
    &&& forall|j: int|
        0 <= j < envs.len() ==> env_is_propose(
            #[trigger] envs[j],
            src_addr,
            cfg.id_address_map@[cfg.leaders@[j].0],
            me,
            slot,
            c,
        )
}

/// `cfg` is the configuration carried by some decided Reconfig command.
pub open spec fn reconfig_source(decisions: Map<u64, Command>, cfg: Config) -> bool {
    exists|s: u64|
        #[trigger] decisions.dom().contains(s) && decisions[s].op is Reconfig && cfg_eq_spec(
            cfg,
            decisions[s].op->Reconfig_0,
        )
}

/// One Propose fan-out per pending item, each to the leaders of the
/// configuration paired with it (reconfiguration can change the leaders
/// between two items of one batch).
pub open spec fn propose_batch(
    envs: Seq<SendableMessage>,
    items: Seq<(u64, Command)>,
    cfgs: Seq<Config>,
    src_addr: Address,
    me: ReplicaId,
) -> bool
    decreases items.len(),
{
    if items.len() == 0 {
        envs.len() == 0
    } else {
        &&& cfgs.len() == items.len()
        &&& envs.len() >= cfgs[0].leaders@.len()
        &&& propose_fanout(
            envs.take(cfgs[0].leaders@.len() as int),
            cfgs[0],
            src_addr,
            me,
            items[0].0,
            items[0].1,
        )
        &&& propose_batch(
            envs.skip(cfgs[0].leaders@.len() as int),
            items.drop_first(),
            cfgs.drop_first(),
            src_addr,
            me,
        )
    }
}

/// Appending one more fan-out to a batch yields the batch of one more item.
proof fn lemma_propose_batch_snoc(
    envs: Seq<SendableMessage>,
    more: Seq<SendableMessage>,
    items: Seq<(u64, Command)>,
    cfgs: Seq<Config>,
    slot: u64,
    c: Command,
    cfg: Config,
    src_addr: Address,
    me: ReplicaId,
)
    requires
        propose_batch(envs, items, cfgs, src_addr, me),
        cfgs.len() == items.len(),
        propose_fanout(more, cfg, src_addr, me, slot, c),
    ensures
        propose_batch(envs + more, items.push((slot, c)), cfgs.push(cfg), src_addr, me),
    decreases items.len(),
{
    let whole = items.push((slot, c));
    let wcfgs = cfgs.push(cfg);
    if items.len() == 0 {
        let m = cfg.leaders@.len() as int;
        assert(envs.len() == 0);
        assert(envs + more =~= more);
        assert(more.take(m) =~= more);
        assert(more.skip(m) =~= Seq::<SendableMessage>::empty());
        assert(whole.drop_first() =~= Seq::<(u64, Command)>::empty());
        assert(wcfgs.drop_first() =~= Seq::<Config>::empty());
        assert(whole[0] == (slot, c));
        assert(wcfgs[0] == cfg);
        assert(propose_fanout((envs + more).take(m), wcfgs[0], src_addr, me, whole[0].0, whole[0].1));
        assert(propose_batch((envs + more).skip(m), whole.drop_first(), wcfgs.drop_first(), src_addr, me));
    } else {
        let m = cfgs[0].leaders@.len() as int;
        lemma_propose_batch_snoc(
            envs.skip(m),
            more,
            items.drop_first(),
            cfgs.drop_first(),
            slot,
            c,
            cfg,
            src_addr,
            me,
        );
        assert((envs + more).take(m) =~= envs.take(m));
        assert((envs + more).skip(m) =~= envs.skip(m) + more);
        assert(whole.drop_first() =~= items.drop_first().push((slot, c)));
        assert(wcfgs.drop_first() =~= cfgs.drop_first().push(cfg));
        assert(whole[0] == items[0]);
        assert(wcfgs[0] == cfgs[0]);
        assert((envs + more).len() >= m);
        assert(propose_fanout((envs + more).take(m), wcfgs[0], src_addr, me, whole[0].0, whole[0].1));
        assert(propose_batch((envs + more).skip(m), whole.drop_first(), wcfgs.drop_first(), src_addr, me));
    }
}

/// What passing one position of the proposing cursor does to the
/// configuration: the Reconfig decided `WINDOW` slots back is installed,
/// where one is decided and usable.
pub open spec fn config_step(c: Config, decisions: Map<u64, Command>, pos: int) -> Config {
    if pos > WINDOW && decisions.dom().contains((pos - WINDOW) as u64) && decisions[
        (pos - WINDOW) as u64
    ].op is Reconfig && (decisions[(pos - WINDOW) as u64].op->Reconfig_0).wf() {
        decisions[(pos - WINDOW) as u64].op->Reconfig_0
    } else {
        c
    }
}

/// The configuration in force after the proposing cursor moved from `lo` to
/// `hi`, applying [`config_step`] at every position passed.
pub open spec fn config_after(pre: Config, decisions: Map<u64, Command>, lo: int, hi: int) -> Config
    decreases hi - lo,
{
    if hi <= lo {
        pre
    } else {
        config_step(config_after(pre, decisions, lo, hi - 1), decisions, hi)
    }
}

/// Element-by-element content equality of two command sequences.
pub open spec fn cmds_eq(a: Seq<Command>, b: Seq<Command>) -> bool {
    a.len() == b.len() && forall|i: int| 0 <= i < a.len() ==> cmd_eq_spec(#[trigger] a[i], b[i])
}

/// The execution log after performing the slots `[lo, hi)` against the
/// decision map `d`: each decided command is appended unless an earlier
/// decided slot holds an equal command or it is a reconfiguration.
pub open spec fn log_after(d: Map<u64, Command>, log: Seq<Command>, lo: int, hi: int) -> Seq<
    Command,
>
    decreases hi - lo,
{
    if hi <= lo {
        log
    } else {
        let prev = log_after(d, log, lo, hi - 1);
        let s = (hi - 1) as u64;
        if d.dom().contains(s) && !(exists|s2: u64|
            1 <= s2 < s && #[trigger] d.dom().contains(s2) && cmd_eq_spec(d[s2], d[s])) && !(d[
            s
        ].op is Reconfig) {
            prev.push(d[s])
        } else {
            prev
        }
    }
}

/// The request queue after performing the slots `[lo, hi)`: a proposal of
/// this replica displaced by a differing decision is pushed back, in slot
/// order.
pub open spec fn displaced_after(
    d: Map<u64, Command>,
    props: Map<u64, Command>,
    q: Seq<Command>,
    lo: int,
    hi: int,
) -> Seq<Command>
    decreases hi - lo,
{
    if hi <= lo {
        q
    } else {
        let prev = displaced_after(d, props, q, lo, hi - 1);
        let s = (hi - 1) as u64;
        if props.dom().contains(s) && d.dom().contains(s) && !cmd_eq_spec(props[s], d[s]) {
            prev.push(props[s])
        } else {
            prev
        }
    }
}

/// A replica process.
pub struct Replica<C: ClockProvider> {
    pub node_id: ReplicaId,
    pub address: Address,
    /// The next slot this replica proposes at; starts at 1.
    pub slot_in: u64,
    /// The next slot to perform; starts at 1.  It usually trails
    /// `slot_in`, but decisions for slots this replica never proposed can
    /// push it past `slot_in`; the proposing cursor then catches up on the
    /// next propose run, checking each passed slot for a reconfiguration.
    /// In every state, `slot_in <= slot_out + WINDOW`.
    pub slot_out: u64,
    /// What this replica proposed per slot in `[slot_out, slot_in)`.
    pub proposals: KeyMap<u64, Command>,
    /// Every chosen command learned so far, possibly out of order.  The
    /// first decision learned for a slot is kept; duplicates are ignored.
    pub decisions: KeyMap<u64, Command>,
    /// Commands waiting for a free slot, oldest first.
    pub requests: Vec<Command>,
    pub config: Config,
    pub mailbox: Mailbox,
    pub clock: C,
    /// Timeout bookkeeping per proposed slot, for the reproposal path.
    pub proposal_times: KeyMap<u64, u64>,
    /// The application state: the operations executed, in order.
    pub executed: Vec<Command>,
}

impl<C: ClockProvider> Replica<C> {
    /// The replica's invariant: a usable configuration, intact stores, slot
    /// cursors within the window, a decision recorded for every performed
    /// slot, proposals only below `slot_in`, and an execution log that maps
    /// each entry to a distinct performed decision.
    pub open spec fn wf(&self) -> bool {
        &&& self.config.wf()
        &&& self.proposals.uniq()
        &&& self.decisions.uniq()
        &&& self.proposal_times.uniq()
        &&& self.clock.wf()
        &&& 1 <= self.slot_out
        &&& 1 <= self.slot_in
        &&& self.slot_in <= self.slot_out + WINDOW
        &&& forall|s: u64| 1 <= s < self.slot_out ==> #[trigger] self.decisions@.dom().contains(s)
        &&& forall|s: u64| #[trigger] self.proposals@.dom().contains(s) ==> s < self.slot_in
        &&& forall|i: int|
            0 <= i < self.executed@.len() ==> self.linked_to_decision(#[trigger] self.executed@[i])
        &&& forall|i: int, j: int|
            0 <= i < j < self.executed@.len() ==> !cmd_eq_spec(
                #[trigger] self.executed@[i],
                #[trigger] self.executed@[j],
            )
    }

    /// `c` is the command of some decision already performed: a slot below
    /// `slot_out` decided it.
    pub open spec fn linked_to_decision(self, c: Command) -> bool {
        exists|s: u64|
            1 <= s < self.slot_out && #[trigger] self.decisions@.dom().contains(s) && cmd_eq_spec(
                self.decisions@[s],
                c,
            )
    }

    /// The execution log stays linked to performed decisions as long as the
    /// log itself is unchanged, decided slots are only added, and `slot_out`
    /// does not move back.
    pub proof fn lemma_exec_log_linked(a: &Replica<C>, b: &Replica<C>)
        requires
            a.wf(),
            b.executed == a.executed,
            b.slot_out >= a.slot_out,
            forall|s: u64|
                #[trigger] a.decisions@.dom().contains(s) ==> b.decisions@.dom().contains(s)
                    && b.decisions@[s] == a.decisions@[s],
        ensures
            forall|i: int|
                0 <= i < b.executed@.len() ==> b.linked_to_decision(#[trigger] b.executed@[i]),
            forall|i: int, j: int|
                0 <= i < j < b.executed@.len() ==> !cmd_eq_spec(
                    #[trigger] b.executed@[i],
                    #[trigger] b.executed@[j],
                ),
    {
        assert forall|i: int| 0 <= i < b.executed@.len() implies b.linked_to_decision(
            #[trigger] b.executed@[i],
        ) by {
            assert(b.executed@[i] == a.executed@[i]);
            assert(a.linked_to_decision(a.executed@[i]));
            let s = choose|s: u64|
                1 <= s < a.slot_out && #[trigger] a.decisions@.dom().contains(s) && cmd_eq_spec(
                    a.decisions@[s],
                    a.executed@[i],
                );
            assert(b.decisions@.dom().contains(s));
            assert(cmd_eq_spec(b.decisions@[s], b.executed@[i]));
        }
        assert forall|i: int, j: int| 0 <= i < j < b.executed@.len() implies !cmd_eq_spec(
            #[trigger] b.executed@[i],
            #[trigger] b.executed@[j],
        ) by {
            assert(b.executed@[i] == a.executed@[i]);
            assert(b.executed@[j] == a.executed@[j]);
        }
    }

    /// Builds a replica.  Fails with `ConfigLookupMiss` unless the
    /// configuration is well formed and has an address for this replica;
    /// the error also stands for a malformed configuration, since a member
    /// without an address is the way such a configuration first bites.
    pub fn new(replica_id: ReplicaId, config: Config, mailbox: Mailbox, clock: C) -> (r: Result<
        Replica<C>,
        PaxosError,
    >)
        requires
            clock.wf(),
        ensures
            r is Ok <==> config.wf() && config.id_address_map@.dom().contains(replica_id.0),
            match r {
                Ok(rep) => {
                    &&& rep.wf()
                    &&& rep.node_id == replica_id
                    &&& rep.address == config.id_address_map@[replica_id.0]
                    &&& rep.config == config
                    &&& rep.mailbox == mailbox
                    &&& rep.clock == clock
                    &&& rep.slot_in == 1
                    &&& rep.slot_out == 1
                    &&& rep.proposals@ == Map::<u64, Command>::empty()
                    &&& rep.decisions@ == Map::<u64, Command>::empty()
                    &&& rep.proposal_times@ == Map::<u64, u64>::empty()
                    &&& rep.requests@ == Seq::<Command>::empty()
                    &&& rep.executed@ == Seq::<Command>::empty()
                },
                Err(e) => e == PaxosError::ConfigLookupMiss,
            },
    {
        if !config.is_well_formed() {
            return Err(PaxosError::ConfigLookupMiss);
        }
        let addr = match config.get_address(replica_id.as_ref()) {
            Some(a) => a.clone(),
            None => {
                return Err(PaxosError::ConfigLookupMiss);
            },
        };
        Ok(
            Replica {
                node_id: replica_id,
                address: addr,
                slot_in: 1,
                slot_out: 1,
                proposals: KeyMap::new(),
                decisions: KeyMap::new(),
                requests: Vec::new(),
                config,
                mailbox,
                clock,
                proposal_times: KeyMap::new(),
                executed: Vec::new(),
            },
        )
    }

    /// Arms the role's recurring timers; called once after construction.
    pub fn start_periodic_checks(&mut self) -> (r: Result<(), PaxosError>)
        requires
            old(self).wf(),
        ensures
            final(self).wf(),
            r is Ok,
            final(self).node_id == old(self).node_id,
            final(self).address == old(self).address,
            final(self).config == old(self).config,
            final(self).mailbox == old(self).mailbox,
            final(self).slot_in == old(self).slot_in,
            final(self).slot_out == old(self).slot_out,
            final(self).proposals == old(self).proposals,
            final(self).decisions == old(self).decisions,
            final(self).requests == old(self).requests,
            final(self).executed == old(self).executed,
            final(self).clock.timer_seq().len() == old(self).clock.timer_seq().len() + 1,
            exists|idx: int|
                {
                    &&& 0 <= idx < final(self).clock.timer_seq().len()
                    &&& (#[trigger] final(self).clock.timer_seq()[idx]).action
                        == ClockAction::CheckSlotWindow
                    &&& old(self).clock.time_known() ==> final(self).clock.timer_seq()[idx].when
                        == crate::nodes::clock::add_sat_spec(
                        old(self).clock.current(),
                        old(self).config.timeout_config.max_timeout,
                    )
                },
    {
        self.schedule_slot_check()
    }

    /// Queues an inbound envelope.
    pub fn accept_message(&mut self, msg: SendableMessage)
        ensures
            final(self).mailbox.inbox@ == old(self).mailbox.inbox@.push(msg),
            final(self).mailbox.outbox == old(self).mailbox.outbox,
            final(self).proposals == old(self).proposals,
            final(self).decisions == old(self).decisions,
            final(self).requests == old(self).requests,
            final(self).executed == old(self).executed,
            final(self).slot_in == old(self).slot_in,
            final(self).slot_out == old(self).slot_out,
            final(self).config == old(self).config,
            final(self).clock == old(self).clock,
            final(self).node_id == old(self).node_id,
            final(self).address == old(self).address,
            final(self).proposal_times == old(self).proposal_times,
            old(self).wf() ==> final(self).wf(),
    {
        self.mailbox.receive(msg);
        proof {
            if old(self).wf() {
                Self::lemma_exec_log_linked(old(self), self);
            }
        }
    }

    /// Takes one envelope from the inbox and processes it.  Returns true
    /// exactly when an applicable message was handled without error; other
    /// payload variants are dropped.
    pub fn work_on_message(&mut self) -> (r: bool)
        requires
            old(self).wf(),
        ensures
            final(self).wf(),
            old(self).mailbox.inbox@.len() == 0 ==> r == false && final(self).slot_out == old(self).slot_out && final(self).slot_in == old(self).slot_in && final(self).executed == old(self).executed && final(self).mailbox.outbox == old(self).mailbox.outbox,
            old(self).mailbox.inbox@.len() > 0 ==> final(self).mailbox.inbox@ == old(self).mailbox.inbox@.drop_first(),
            old(self).mailbox.inbox@.len() > 0 ==> match old(self).mailbox.inbox@[0].message {
                Message::Request(m) => r == true && Self::step_effect(
                    *old(self),
                    *final(self),
                    ReplicaMessageIn::Request(m),
                ),
                Message::Decision(m) => r == true && Self::step_effect(
                    *old(self),
                    *final(self),
                    ReplicaMessageIn::Decision(m),
                ),
                _ => r == false && final(self).proposals == old(self).proposals && final(self).decisions == old(self).decisions && final(self).requests == old(self).requests && final(self).executed == old(self).executed && final(self).proposal_times == old(self).proposal_times && final(self).slot_in == old(self).slot_in && final(self).slot_out == old(self).slot_out && final(self).config == old(self).config && final(self).clock == old(self).clock && final(self).mailbox.outbox == old(self).mailbox.outbox,
            },
            final(self).node_id == old(self).node_id,
            final(self).address == old(self).address,
            final(self).slot_out >= old(self).slot_out,
            final(self).executed@.len() >= old(self).executed@.len(),
            final(self).executed@.take(old(self).executed@.len() as int) == old(self).executed@,
    {
        let received_msg = match self.mailbox.process_latest_in() {
            None => {
                proof {
                    Self::lemma_exec_log_linked(old(self), self);
                }
                return false;
            },
            Some(msg_in) => msg_in,
        };
        let ghost mid = *self;
        let inbox_received = match received_msg.message {
            Message::Request(m) => ReplicaMessageIn::Request(m),
            Message::Decision(m) => ReplicaMessageIn::Decision(m),
            _ => {
                proof {
                    Self::lemma_exec_log_linked(old(self), self);
                }
                return false;
            },
        };
        let ghost gmsg = inbox_received;
        let handled = match self.handle_msg(inbox_received) {
            Ok(_) => true,
            Err(_) => false,
        };
        proof {
            Self::lemma_step_effect_frame(mid, *old(self), *self, gmsg);
        }
        handled
    }

    /// The replica's step relation: everything one [`Replica::handle_msg`]
    /// call does, stated between a pre state and a post state.  The inbox is
    /// deliberately not constrained, so the dispatcher that popped the
    /// envelope can state its own effect through this same relation.
    pub open spec fn step_effect(pre: Self, post: Self, msg: ReplicaMessageIn) -> bool {
        &&& post.node_id == pre.node_id
        &&& post.address == pre.address
        &&& match msg {
            ReplicaMessageIn::Request(m) => exists|mid: Replica<C>|
                #[trigger] Self::request_phase(pre, mid, m) && Self::propose_effect(mid, post),
            ReplicaMessageIn::Decision(m) => exists|mid: Replica<C>|
                #[trigger] Self::decision_phase(pre, mid, m) && Self::propose_effect(mid, post),
        }
    }

    /// The step relation only reads the parts of the pre state it mentions:
    /// a pre state equal on those parts supports the same step.
    proof fn lemma_step_effect_frame(a: Self, a2: Self, b: Self, msg: ReplicaMessageIn)
        requires
            Self::step_effect(a, b, msg),
            a2.proposals == a.proposals,
            a2.decisions == a.decisions,
            a2.requests == a.requests,
            a2.executed == a.executed,
            a2.proposal_times == a.proposal_times,
            a2.slot_in == a.slot_in,
            a2.slot_out == a.slot_out,
            a2.config == a.config,
            a2.clock == a.clock,
            a2.mailbox.outbox == a.mailbox.outbox,
            a2.node_id == a.node_id,
            a2.address == a.address,
        ensures
            Self::step_effect(a2, b, msg),
    {
        match msg {
            ReplicaMessageIn::Request(m) => {
                let mid = choose|mid: Replica<C>|
                    #[trigger] Self::request_phase(a, mid, m) && Self::propose_effect(mid, b);
                assert(Self::request_phase(a2, mid, m));
            },
            ReplicaMessageIn::Decision(m) => {
                let mid = choose|mid: Replica<C>|
                    #[trigger] Self::decision_phase(a, mid, m) && Self::propose_effect(mid, b);
                assert(Self::decision_phase(a2, mid, m));
            },
        }
    }

    /// The replica's step function.
    ///
    /// On Request(c): append `c` to the pending queue, then propose.  On
    /// Decision(s, c): record the decision unless slot `s` already has one,
    /// then perform decisions in slot order for as long as the decision for
    /// `slot_out` is known, displacing any differing own proposal back onto
    /// the queue; then propose.
    pub fn handle_msg(&mut self, msg: ReplicaMessageIn) -> (r: Result<(), PaxosError>)
        requires
            old(self).wf(),
        ensures
            final(self).wf(),
            r is Ok,
            final(self).node_id == old(self).node_id,
            final(self).address == old(self).address,
            final(self).mailbox.inbox == old(self).mailbox.inbox,
            final(self).config == old(self).config || reconfig_source(
                final(self).decisions@,
                final(self).config,
            ),
            final(self).executed@.len() >= old(self).executed@.len(),
            final(self).executed@.take(old(self).executed@.len() as int) == old(self).executed@,
            final(self).requests@.len() == 0 || final(self).slot_in == final(self).slot_out
                + WINDOW || final(self).slot_in == u64::MAX,
            Self::step_effect(*old(self), *final(self), msg),
            match msg {
                ReplicaMessageIn::Request(m) => {
                    &&& final(self).slot_out == old(self).slot_out
                    &&& final(self).decisions == old(self).decisions
                    &&& final(self).executed == old(self).executed
                    &&& exists|mid: Replica<C>|
                        #[trigger] Self::request_phase(*old(self), mid, m)
                            && Self::propose_effect(mid, *final(self))
                },
                ReplicaMessageIn::Decision(m) => {
                    &&& final(self).decisions@ == if old(self).decisions@.dom().contains(
                        m.slot_number,
                    ) {
                        old(self).decisions@
                    } else {
                        old(self).decisions@.insert(m.slot_number, m.command)
                    }
                    &&& final(self).slot_out >= old(self).slot_out
                    &&& (final(self).slot_out == u64::MAX || !final(self).decisions@.dom().contains(final(self).slot_out))
                    &&& forall|s: u64|
                        old(self).slot_out <= s < final(self).slot_out ==> !(#[trigger] final(self).proposals@.dom().contains(s))
                    &&& exists|mid: Replica<C>|
                        #[trigger] Self::decision_phase(*old(self), mid, m)
                            && Self::propose_effect(mid, *final(self))
                },
            },
    {
        let ghost gmsg = msg;
        match msg {
            ReplicaMessageIn::Request(req) => {
                self.requests.push(req.command);
            },
            ReplicaMessageIn::Decision(dec) => {
                // Record the decision; the first one learned for a slot
                // wins, so replays cannot rewrite history.
                if !self.decisions.contains_key(&dec.slot_number) {
                    self.decisions.insert(dec.slot_number, dec.command);
                }
                // The slot is settled; stop tracking its proposal timeout.
                let _ = self.proposal_times.remove(&dec.slot_number);
                proof {
                    Self::lemma_exec_log_linked(old(self), self);
                }
                // Perform everything that is ready, in slot order.
                while self.slot_out < u64::MAX && self.decisions.contains_key(&self.slot_out)
                    invariant
                        self.wf(),
                        self.node_id == old(self).node_id,
                        self.address == old(self).address,
                        self.config == old(self).config,
                        self.mailbox == old(self).mailbox,
                        self.clock == old(self).clock,
                        self.slot_in == old(self).slot_in,
                        self.requests@.len() >= old(self).requests@.len(),
                        self.requests@.take(old(self).requests@.len() as int) == old(self).requests@,
                        self.slot_out >= old(self).slot_out,
                        self.decisions@ == if old(self).decisions@.dom().contains(dec.slot_number) {
                            old(self).decisions@
                        } else {
                            old(self).decisions@.insert(dec.slot_number, dec.command)
                        },
                        self.decisions.uniq(),
                        self.executed@.len() >= old(self).executed@.len(),
                        self.executed@.take(old(self).executed@.len() as int) == old(self).executed@,
                        forall|s: u64|
                            old(self).slot_out <= s < self.slot_out ==> !(
                            #[trigger] self.proposals@.dom().contains(s)),
                        forall|s: u64|
                            #[trigger] self.proposals@.dom().contains(s) ==> old(self).proposals@.dom().contains(s) && self.proposals@[s] == old(self).proposals@[s],
                        forall|s: u64|
                            #[trigger] old(self).proposals@.dom().contains(s) && !(old(self).slot_out <= s < self.slot_out) ==> self.proposals@.dom().contains(s),
                        forall|s: u64|
                            #[trigger] self.proposal_times@.dom().contains(s) ==> old(self).proposal_times@.dom().contains(s) && s != dec.slot_number && !(old(self).slot_out <= s < self.slot_out) && self.proposal_times@[s] == old(self).proposal_times@[s],
                        forall|s: u64|
                            #[trigger] old(self).proposal_times@.dom().contains(s) && s != dec.slot_number && !(old(self).slot_out <= s < self.slot_out) ==> self.proposal_times@.dom().contains(s),
                        cmds_eq(
                            self.executed@,
                            log_after(
                                self.decisions@,
                                old(self).executed@,
                                old(self).slot_out as int,
                                self.slot_out as int,
                            ),
                        ),
                        cmds_eq(
                            self.requests@,
                            displaced_after(
                                self.decisions@,
                                old(self).proposals@,
                                old(self).requests@,
                                old(self).slot_out as int,
                                self.slot_out as int,
                            ),
                        ),
                    decreases u64::MAX - self.slot_out,
                {
                    let here = self.slot_out;
                    // Displace a differing proposal for this slot back onto
                    // the queue; a matching one is simply dropped.
                    let displaced: Option<Command> = match self.proposals.get(&here) {
                        Some(p) => {
                            let same = match self.decisions.get(&here) {
                                Some(d) => command_eq(p, d),
                                None => false,
                            };
                            if same {
                                None
                            } else {
                                Some(p.clone())
                            }
                        },
                        None => None,
                    };
                    let ghost reqs_before = self.requests@;
                    let ghost exec_before = self.executed@;
                    let had = self.proposals.remove(&here);
                    match displaced {
                        Some(c) => {
                            self.requests.push(c);
                            proof {
                                assert(self.requests@.take(old(self).requests@.len() as int)
                                    =~= old(self).requests@);
                            }
                        },
                        None => (),
                    }
                    let _ = self.proposal_times.remove(&here);
                    self.perform(here);
                    proof {
                        assert(self.executed@.take(old(self).executed@.len() as int) =~= old(self).executed@);
                        let d = self.decisions@;
                        let lo = old(self).slot_out as int;
                        let hi = self.slot_out as int;
                        let log0 = old(self).executed@;
                        let props0 = old(self).proposals@;
                        let q0 = old(self).requests@;
                        assert(hi - 1 == here);
                        // One step of the abstract log.
                        let prev_log = log_after(d, log0, lo, hi - 1);
                        assert(log_after(d, log0, lo, hi) == if d.dom().contains(here) && !(
                        exists|s2: u64|
                            1 <= s2 < here && #[trigger] d.dom().contains(s2) && cmd_eq_spec(
                                d[s2],
                                d[here],
                            )) && !(d[here].op is Reconfig) {
                            prev_log.push(d[here])
                        } else {
                            prev_log
                        });
                        assert forall|i: int|
                            0 <= i < self.executed@.len() implies cmd_eq_spec(
                            #[trigger] self.executed@[i],
                            log_after(d, log0, lo, hi)[i],
                        ) by {
                            if i < exec_before.len() {
                                assert(self.executed@[i] == exec_before[i]);
                                assert(cmd_eq_spec(exec_before[i], prev_log[i]));
                            }
                        }
                        assert(cmds_eq(self.executed@, log_after(d, log0, lo, hi)));
                        // One step of the displaced queue.
                        let prev_q = displaced_after(d, props0, q0, lo, hi - 1);
                        assert(displaced_after(d, props0, q0, lo, hi) == if props0.dom().contains(
                            here,
                        ) && d.dom().contains(here) && !cmd_eq_spec(props0[here], d[here]) {
                            prev_q.push(props0[here])
                        } else {
                            prev_q
                        });
                        assert forall|i: int|
                            0 <= i < self.requests@.len() implies cmd_eq_spec(
                            #[trigger] self.requests@[i],
                            displaced_after(d, props0, q0, lo, hi)[i],
                        ) by {
                            if i < reqs_before.len() {
                                assert(self.requests@[i] == reqs_before[i]);
                                assert(cmd_eq_spec(reqs_before[i], prev_q[i]));
                            } else {
                                lemma_cmd_eq_sym(props0[here], self.requests@[i]);
                                lemma_cmd_eq_sym(self.requests@[i], props0[here]);
                            }
                        }
                        assert(cmds_eq(
                            self.requests@,
                            displaced_after(d, props0, q0, lo, hi),
                        ));
                    }
                }
            },
        }
        let ghost mid = *self;
        let r = self.propose();
        proof {
            match gmsg {
                ReplicaMessageIn::Request(m) => {
                    assert(Self::request_phase(*old(self), mid, m));
                    assert(Self::propose_effect(mid, *self));
                },
                ReplicaMessageIn::Decision(m) => {
                    assert(Self::decision_phase(*old(self), mid, m));
                    assert(Self::propose_effect(mid, *self));
                    assert(mid.wf());
                    self.proposals.lemma_view();
                    mid.proposals.lemma_view();
                    assert forall|s: u64|
                        old(self).slot_out <= s < self.slot_out implies !(
                    #[trigger] self.proposals@.dom().contains(s)) by {
                        if self.proposals@.dom().contains(s) {
                            let i = choose|i: int|
                                0 <= i < self.proposals.entries().len() && (
                                #[trigger] self.proposals.entries()[i]).0 == s;
                            if i < mid.proposals.entries().len() {
                                assert(self.proposals.entries().take(
                                    mid.proposals.entries().len() as int,
                                )[i] == self.proposals.entries()[i]);
                                assert(mid.proposals.entries()[i].0 == s);
                                assert(mid.proposals@.dom().contains(s));
                                assert(false);
                            } else {
                                let news = self.proposals.entries().skip(
                                    mid.proposals.entries().len() as int,
                                );
                                let j = i - mid.proposals.entries().len();
                                assert(news[j].0 == s);
                                assert(!mid.decisions@.dom().contains(s));
                                assert(mid.decisions@.dom().contains(s));
                                assert(false);
                            }
                        }
                    }
                },
            }
        }
        r
    }

    /// Performs the decision at `slot`, which must be the next slot out.
    /// The command is executed against the application state only if no
    /// earlier performed slot decided the same command and it is not a
    /// reconfiguration; `slot_out` advances by exactly one either way.
    pub fn perform(&mut self, slot: u64)
        requires
            old(self).wf(),
            slot == old(self).slot_out,
            old(self).decisions@.dom().contains(slot),
            slot < u64::MAX,
        ensures
            final(self).wf(),
            final(self).slot_out == old(self).slot_out + 1,
            final(self).node_id == old(self).node_id,
            final(self).address == old(self).address,
            final(self).config == old(self).config,
            final(self).mailbox == old(self).mailbox,
            final(self).clock == old(self).clock,
            final(self).slot_in == old(self).slot_in,
            final(self).proposals == old(self).proposals,
            final(self).decisions == old(self).decisions,
            final(self).requests == old(self).requests,
            final(self).proposal_times == old(self).proposal_times,
            ({
                let c = old(self).decisions@[slot];
                let dup = exists|s2: u64|
                    1 <= s2 < slot && #[trigger] old(self).decisions@.dom().contains(s2)
                        && cmd_eq_spec(old(self).decisions@[s2], c);
                if dup || c.op is Reconfig {
                    final(self).executed == old(self).executed
                } else {
                    final(self).executed@.len() == old(self).executed@.len() + 1 && final(self).executed@.take(old(self).executed@.len() as int) == old(self).executed@
                        && cmd_eq_spec(final(self).executed@.last(), c)
                }
            }),
    {
        let command = match self.decisions.get(&slot) {
            Some(c) => c,
            None => {
                proof {
                    assert(false);
                }
                return ;
            },
        };
        let mut s: u64 = 1;
        while s < slot
            invariant
                self.wf(),
                *self == *old(self),
                1 <= s <= slot,
                slot == self.slot_out,
                slot < u64::MAX,
                self.decisions@.dom().contains(slot),
                command == self.decisions@[slot],
                forall|s2: u64|
                    1 <= s2 < s ==> !(#[trigger] self.decisions@.dom().contains(s2)) || !cmd_eq_spec(
                        self.decisions@[s2],
                        self.decisions@[slot],
                    ),
            decreases slot - s,
        {
            let same = match self.decisions.get(&s) {
                Some(d) => command_eq(d, command),
                None => false,
            };
            if same {
                // The command was already performed at an earlier slot;
                // advance without executing.
                self.slot_out = self.slot_out + 1;
                proof {
                    assert(1 <= s < slot && old(self).decisions@.dom().contains(s) && cmd_eq_spec(
                        old(self).decisions@[s],
                        old(self).decisions@[slot],
                    ));
                    Self::lemma_exec_log_linked(old(self), self);
                }
                return ;
            }
            s = s + 1;
        }
        let is_reconfig = match &command.op {
            CommandType::Reconfig(_) => true,
            _ => false,
        };
        if is_reconfig {
            // Reconfigurations order membership changes; they are not
            // application operations.
            self.slot_out = self.slot_out + 1;
            proof {
                Self::lemma_exec_log_linked(old(self), self);
            }
            return ;
        }
        let chosen = command.clone();
        self.executed.push(chosen);
        proof {
            let c = self.decisions@[slot];
            assert(self.executed@.take(old(self).executed@.len() as int) =~= old(self).executed@);
            assert(cmd_eq_spec(self.executed@.last(), c)) by {
                lemma_cmd_eq_sym(c, self.executed@.last());
            }
            assert forall|i: int, j: int|
                0 <= i < j < self.executed@.len() implies !cmd_eq_spec(
                #[trigger] self.executed@[i],
                #[trigger] self.executed@[j],
            ) by {
                if j == self.executed@.len() - 1 {
                    if cmd_eq_spec(self.executed@[i], self.executed@[j]) {
                        assert(self.executed@[i] == old(self).executed@[i]);
                        assert(old(self).linked_to_decision(old(self).executed@[i]));
                        let si = choose|si: u64|
                            1 <= si < old(self).slot_out && #[trigger] old(
                                self,
                            ).decisions@.dom().contains(si) && cmd_eq_spec(
                                old(self).decisions@[si],
                                old(self).executed@[i],
                            );
                        lemma_cmd_eq_sym(self.decisions@[si], self.executed@[i]);
                        lemma_cmd_eq_trans(self.executed@[j], self.executed@[i], c);
                        lemma_cmd_eq_sym(self.executed@[j], self.executed@[i]);
                        lemma_cmd_eq_trans(self.executed@[i], self.executed@[j], c);
                        lemma_cmd_eq_trans(self.decisions@[si], self.executed@[i], c);
                        assert(false);
                    }
                }
            }
        }
        self.slot_out = self.slot_out + 1;
        proof {
            let c = self.decisions@[slot];
            assert forall|i: int| 0 <= i < self.executed@.len() implies self.linked_to_decision(
                #[trigger] self.executed@[i],
            ) by {
                if i < old(self).executed@.len() {
                    assert(self.executed@[i] == old(self).executed@[i]);
                    assert(old(self).linked_to_decision(old(self).executed@[i]));
                    let s2 = choose|s2: u64|
                        1 <= s2 < old(self).slot_out && #[trigger] old(
                            self,
                        ).decisions@.dom().contains(s2) && cmd_eq_spec(
                            old(self).decisions@[s2],
                            old(self).executed@[i],
                        );
                    assert(self.decisions@.dom().contains(s2));
                    assert(cmd_eq_spec(self.decisions@[s2], self.executed@[i]));
                } else {
                    assert(self.executed@[i] == self.executed@.last());
                    assert(1 <= slot < self.slot_out && self.decisions@.dom().contains(slot));
                    lemma_cmd_eq_sym(self.executed@.last(), c);
                    assert(cmd_eq_spec(self.decisions@[slot], self.executed@[i]));
                }
            }
        }
    }

    /// The request phase of [`Replica::handle_msg`]: the command is
    /// appended to the pending queue and nothing else moves.  The inbox is
    /// deliberately not constrained.
    pub open spec fn request_phase(pre: Self, mid: Self, m: messages::RequestMessage) -> bool {
        &&& mid.requests@ == pre.requests@.push(m.command)
        &&& mid.proposals == pre.proposals
        &&& mid.decisions == pre.decisions
        &&& mid.executed == pre.executed
        &&& mid.proposal_times == pre.proposal_times
        &&& mid.slot_in == pre.slot_in
        &&& mid.slot_out == pre.slot_out
        &&& mid.config == pre.config
        &&& mid.clock == pre.clock
        &&& mid.node_id == pre.node_id
        &&& mid.address == pre.address
        &&& mid.mailbox.outbox == pre.mailbox.outbox
    }

    /// The decision phase of [`Replica::handle_msg`]: the decision is
    /// recorded unless its slot already has one, and every ready slot is
    /// performed in order; a differing displaced proposal returns to the
    /// queue, each performed slot loses its proposal and its timeout entry,
    /// and the execution log grows by exactly the fresh non-Reconfig
    /// commands.  The inbox is deliberately not constrained.
    pub open spec fn decision_phase(pre: Self, mid: Self, m: messages::DecisionMessage) -> bool {
        &&& mid.node_id == pre.node_id
        &&& mid.address == pre.address
        &&& mid.config == pre.config
        &&& mid.clock == pre.clock
        &&& mid.slot_in == pre.slot_in
        &&& mid.mailbox.outbox == pre.mailbox.outbox
        &&& mid.decisions@ == if pre.decisions@.dom().contains(m.slot_number) {
            pre.decisions@
        } else {
            pre.decisions@.insert(m.slot_number, m.command)
        }
        &&& mid.slot_out >= pre.slot_out
        &&& (mid.slot_out == u64::MAX || !mid.decisions@.dom().contains(mid.slot_out))
        &&& forall|s: u64|
            #[trigger] mid.proposals@.dom().contains(s) ==> pre.proposals@.dom().contains(s)
                && !(pre.slot_out <= s < mid.slot_out) && mid.proposals@[s] == pre.proposals@[s]
        &&& forall|s: u64|
            #[trigger] pre.proposals@.dom().contains(s) && !(pre.slot_out <= s < mid.slot_out)
                ==> mid.proposals@.dom().contains(s)
        &&& forall|s: u64|
            #[trigger] mid.proposal_times@.dom().contains(s) ==> pre.proposal_times@.dom().contains(
                s,
            ) && s != m.slot_number && !(pre.slot_out <= s < mid.slot_out)
                && mid.proposal_times@[s] == pre.proposal_times@[s]
        &&& forall|s: u64|
            #[trigger] pre.proposal_times@.dom().contains(s) && s != m.slot_number && !(
            pre.slot_out <= s < mid.slot_out) ==> mid.proposal_times@.dom().contains(s)
        &&& cmds_eq(
            mid.executed@,
            log_after(mid.decisions@, pre.executed@, pre.slot_out as int, mid.slot_out as int),
        )
        &&& cmds_eq(
            mid.requests@,
            displaced_after(
                mid.decisions@,
                pre.proposals@,
                pre.requests@,
                pre.slot_out as int,
                mid.slot_out as int,
            ),
        )
    }

    /// Everything one [`Replica::propose`] call does, stated between a pre
    /// state and a post state.  The inbox is deliberately not constrained,
    /// so the handlers that run propose after their own phase can state
    /// their combined effect through this relation.
    pub open spec fn propose_effect(pre: Self, post: Self) -> bool {
        &&& post.node_id == pre.node_id
        &&& post.address == pre.address
        &&& post.slot_out == pre.slot_out
        &&& post.decisions == pre.decisions
        &&& post.executed == pre.executed
        &&& post.slot_in >= pre.slot_in
        &&& post.config == pre.config || reconfig_source(
                pre.decisions@,
                post.config,
            )
        &&& cfg_eq_spec(
                post.config,
                config_after(
                    pre.config,
                    pre.decisions@,
                    pre.slot_in as int,
                    post.slot_in as int,
                ),
            )
        &&& post.requests@.len() == 0 || post.slot_in == post.slot_out
                + WINDOW || post.slot_in == u64::MAX
        &&& forall|s: u64|
                #[trigger] pre.proposals@.dom().contains(s) ==> post.proposals@.dom().contains(s) && post.proposals@[s] == pre.proposals@[s]
        &&& post.proposals.entries().len() >= pre.proposals.entries().len()
        &&& post.proposals.entries().take(pre.proposals.entries().len() as int)
                == pre.proposals.entries()
        &&& ({
                let news = post.proposals.entries().skip(
                    pre.proposals.entries().len() as int,
                );
                &&& news.len() <= pre.requests@.len()
                &&& post.requests@ == pre.requests@.skip(news.len() as int)
                &&& forall|j: int|
                    0 <= j < news.len() ==> pre.slot_in <= (#[trigger] news[j]).0 < post.slot_in && !pre.decisions@.dom().contains(news[j].0) && cmd_eq_spec(
                        news[j].1,
                        pre.requests@[j],
                    )
                &&& forall|j1: int, j2: int|
                    0 <= j1 < j2 < news.len() ==> (#[trigger] news[j1]).0 < (#[trigger] news[
                        j2
                    ]).0
                &&& exists|cfgs: Seq<Config>|
                    {
                        &&& cfgs.len() == news.len()
                        &&& (forall|j: int|
                            0 <= j < cfgs.len() ==> #[trigger] cfgs[j] == pre.config
                                || reconfig_source(pre.decisions@, cfgs[j]))
                        &&& propose_batch(
                            post.mailbox.outbox@.skip(
                                pre.mailbox.outbox@.len() as int,
                            ),
                            news,
                            cfgs,
                            pre.address,
                            pre.node_id,
                        )
                    }
            })
        &&& post.mailbox.outbox@.len() >= pre.mailbox.outbox@.len()
        &&& post.mailbox.outbox@.take(pre.mailbox.outbox@.len() as int) == pre.mailbox.outbox@
        &&& forall|j: int|
                pre.mailbox.outbox@.len() <= j < post.mailbox.outbox@.len()
                    ==> (#[trigger] post.mailbox.outbox@[j]).message is Propose
    }

    /// Moves pending requests into free slots within the window: for each
    /// slot from `slot_in` on that has no decision yet, the oldest request
    /// becomes the proposal for that slot and a Propose fan-out goes to the
    /// leaders.  A Reconfig decided `WINDOW` slots back installs its
    /// configuration for the slots from here on, provided it is well
    /// formed.
    pub fn propose(&mut self) -> (r: Result<(), PaxosError>)
        requires
            old(self).wf(),
        ensures
            final(self).wf(),
            r is Ok,
            final(self).mailbox.inbox == old(self).mailbox.inbox,
            Self::propose_effect(*old(self), *final(self)),
    {
        let pt_was_empty = self.proposal_times.len() == 0;
        let ghost orig_requests = self.requests@;
        let ghost orig_entries = self.proposals.entries();
        let ghost base = self.mailbox.outbox@.len() as int;
        let ghost mut consumed: int = 0;
        let ghost mut cfgs: Seq<Config> = Seq::empty();
        while self.requests.len() > 0 && (self.slot_in < self.slot_out || self.slot_in
            - self.slot_out < WINDOW) && self.slot_in < u64::MAX
            invariant
                old(self).wf(),
                self.wf(),
                self.node_id == old(self).node_id,
                self.address == old(self).address,
                self.slot_out == old(self).slot_out,
                self.decisions == old(self).decisions,
                self.executed == old(self).executed,
                self.mailbox.inbox == old(self).mailbox.inbox,
                self.clock == old(self).clock,
                self.slot_in >= old(self).slot_in,
                self.config == old(self).config || reconfig_source(
                    old(self).decisions@,
                    self.config,
                ),
                cfg_eq_spec(
                    self.config,
                    config_after(
                        old(self).config,
                        old(self).decisions@,
                        old(self).slot_in as int,
                        self.slot_in as int,
                    ),
                ),
                0 <= consumed <= orig_requests.len(),
                orig_requests == old(self).requests@,
                orig_entries == old(self).proposals.entries(),
                base == old(self).mailbox.outbox@.len(),
                self.requests@ == orig_requests.skip(consumed),
                forall|s: u64|
                    #[trigger] old(self).proposals@.dom().contains(s) ==> self.proposals@.dom().contains(
                        s,
                    ) && self.proposals@[s] == old(self).proposals@[s],
                self.proposals.entries().len() == orig_entries.len() + consumed,
                self.proposals.entries().take(orig_entries.len() as int) == orig_entries,
                forall|j: int|
                    0 <= j < consumed ==> old(self).slot_in <= (
                    #[trigger] self.proposals.entries().skip(orig_entries.len() as int)[j]).0
                        < self.slot_in && !old(self).decisions@.dom().contains(
                        self.proposals.entries().skip(orig_entries.len() as int)[j].0,
                    ) && cmd_eq_spec(
                        self.proposals.entries().skip(orig_entries.len() as int)[j].1,
                        orig_requests[j],
                    ),
                forall|j1: int, j2: int|
                    0 <= j1 < j2 < consumed ==> (#[trigger] self.proposals.entries().skip(
                        orig_entries.len() as int,
                    )[j1]).0 < (#[trigger] self.proposals.entries().skip(
                        orig_entries.len() as int,
                    )[j2]).0,
                cfgs.len() == consumed,
                forall|j: int|
                    0 <= j < cfgs.len() ==> #[trigger] cfgs[j] == old(self).config
                        || reconfig_source(old(self).decisions@, cfgs[j]),
                propose_batch(
                    self.mailbox.outbox@.skip(base),
                    self.proposals.entries().skip(orig_entries.len() as int),
                    cfgs,
                    old(self).address,
                    old(self).node_id,
                ),
                self.mailbox.outbox@.len() >= base,
                self.mailbox.outbox@.take(base) == old(self).mailbox.outbox@,
                forall|j: int|
                    base <= j < self.mailbox.outbox@.len() ==> (
                    #[trigger] self.mailbox.outbox@[j]).message is Propose,
            decreases self.slot_out + WINDOW - self.slot_in,
        {
            let here = self.slot_in;
            if !self.decisions.contains_key(&here) {
                let command = self.requests.remove(0);
                proof {
                    assert(orig_requests.skip(consumed).remove(0) =~= orig_requests.skip(
                        consumed + 1,
                    ));
                    assert(orig_requests.skip(consumed)[0] == orig_requests[consumed]);
                    assert(!self.proposals@.dom().contains(here));
                }
                let ghost entries_before = self.proposals.entries();
                self.proposals.insert(here, command.clone());
                proof {
                    assert(self.proposals.entries() == entries_before.push(
                        self.proposals.entries().last(),
                    ));
                    assert(self.proposals.entries().take(orig_entries.len() as int)
                        =~= entries_before.take(orig_entries.len() as int));
                    assert(self.proposals.entries().skip(orig_entries.len() as int)
                        =~= entries_before.skip(orig_entries.len() as int).push(
                        self.proposals.entries().last(),
                    ));
                }
                self.slot_in = self.slot_in + 1;
                proof {
                    Self::lemma_exec_log_linked(old(self), self);
                }
                let ghost delta_old = self.mailbox.outbox@.skip(base);
                let ghost news_old = entries_before.skip(orig_entries.len() as int);
                let ghost pre_len = self.mailbox.outbox@.len() as int;
                self.send_proposal_to_leaders(here, &command)?;
                proof {
                    consumed = consumed + 1;
                    let more = self.mailbox.outbox@.skip(pre_len);
                    let stored = self.proposals.entries().last().1;
                    assert forall|j: int|
                        old(self).mailbox.outbox@.len() <= j < self.mailbox.outbox@.len() implies (
                    #[trigger] self.mailbox.outbox@[j]).message is Propose by {
                        if j < pre_len {
                            assert(self.mailbox.outbox@.take(pre_len)[j]
                                == self.mailbox.outbox@[j]);
                        } else {
                            assert(more[j - pre_len] == self.mailbox.outbox@[j]);
                            assert(env_is_propose(
                                more[j - pre_len],
                                old(self).address,
                                self.config.id_address_map@[self.config.leaders@[j - pre_len].0],
                                old(self).node_id,
                                here,
                                command,
                            ));
                        }
                    }
                    assert(self.mailbox.outbox@.take(base) =~= old(self).mailbox.outbox@);
                    assert(cmd_eq_spec(stored, command));
                    assert forall|j: int| 0 <= j < more.len() implies env_is_propose(
                        #[trigger] more[j],
                        old(self).address,
                        self.config.id_address_map@[self.config.leaders@[j].0],
                        old(self).node_id,
                        here,
                        stored,
                    ) by {
                        let sent = more[j];
                        let mc = sent.message->Propose_0.command;
                        lemma_cmd_eq_sym(stored, command);
                        lemma_cmd_eq_trans(mc, command, stored);
                    }
                    assert(propose_fanout(
                        more,
                        self.config,
                        old(self).address,
                        old(self).node_id,
                        here,
                        stored,
                    ));
                    lemma_propose_batch_snoc(
                        delta_old,
                        more,
                        news_old,
                        cfgs,
                        here,
                        stored,
                        self.config,
                        old(self).address,
                        old(self).node_id,
                    );
                    assert(self.mailbox.outbox@.skip(base) =~= delta_old + more);
                    assert(self.proposals.entries().skip(orig_entries.len() as int)
                        =~= news_old.push((here, stored)));
                    cfgs = cfgs.push(self.config);
                }
                // Track the fresh proposal for the reproposal timer.
                let min_t = self.config.timeout_config.min_timeout;
                self.proposal_times.insert(here, min_t);
            } else {
                self.slot_in = self.slot_in + 1;
            }
            // A Reconfig decided WINDOW slots back governs this slot; adopt
            // its configuration for the proposing that follows, as long as
            // it is usable.
            let ghost config_before_edge = self.config;
            if self.slot_in > WINDOW {
                let edge = self.slot_in - WINDOW;
                let newcfg: Option<Config> = match self.decisions.get(&edge) {
                    Some(c) => match &c.op {
                        CommandType::Reconfig(cf) => {
                            if cf.is_well_formed() {
                                Some(cf.clone())
                            } else {
                                None
                            }
                        },
                        _ => None,
                    },
                    None => None,
                };
                match newcfg {
                    Some(nc) => {
                        proof {
                            assert(old(self).decisions@.dom().contains(edge));
                            assert(old(self).decisions@[edge].op is Reconfig);
                        }
                        self.config = nc;
                    },
                    None => (),
                }
            }
            proof {
                assert(config_after(
                    old(self).config,
                    old(self).decisions@,
                    old(self).slot_in as int,
                    self.slot_in as int,
                ) == config_step(
                    config_after(
                        old(self).config,
                        old(self).decisions@,
                        old(self).slot_in as int,
                        self.slot_in as int - 1,
                    ),
                    old(self).decisions@,
                    self.slot_in as int,
                ));
                Self::lemma_exec_log_linked(old(self), self);
            }
        }
        // Kick the reproposal check when this was the first batch to put
        // something in flight; afterwards the check re-arms itself.
        if pt_was_empty && self.proposal_times.len() > 0 {
            self.schedule_repropose_check();
        }
        Ok(())
    }

    /// Sends `Propose(slot, command)` to every leader of the current
    /// configuration.
    fn send_proposal_to_leaders(&mut self, slot: u64, command: &Command) -> (r: Result<
        (),
        PaxosError,
    >)
        requires
            old(self).wf(),
        ensures
            final(self).wf(),
            r is Ok,
            final(self).node_id == old(self).node_id,
            final(self).address == old(self).address,
            final(self).config == old(self).config,
            final(self).clock == old(self).clock,
            final(self).slot_in == old(self).slot_in,
            final(self).slot_out == old(self).slot_out,
            final(self).proposals == old(self).proposals,
            final(self).decisions == old(self).decisions,
            final(self).requests == old(self).requests,
            final(self).executed == old(self).executed,
            final(self).proposal_times == old(self).proposal_times,
            final(self).mailbox.inbox == old(self).mailbox.inbox,
            final(self).mailbox.outbox@.len() == old(self).mailbox.outbox@.len() + old(self).config.leaders@.len(),
            final(self).mailbox.outbox@.take(old(self).mailbox.outbox@.len() as int) == old(self).mailbox.outbox@,
            propose_fanout(
                final(self).mailbox.outbox@.skip(old(self).mailbox.outbox@.len() as int),
                old(self).config,
                old(self).address,
                old(self).node_id,
                slot,
                *command,
            ),
    {
        let ghost base = self.mailbox.outbox@.len() as int;
        let n = self.config.leaders.len();
        let mut i: usize = 0;
        while i < n
            invariant
                old(self).wf(),
                n == self.config.leaders@.len(),
                i <= n,
                self.node_id == old(self).node_id,
                self.address == old(self).address,
                self.config == old(self).config,
                self.clock == old(self).clock,
                self.slot_in == old(self).slot_in,
                self.slot_out == old(self).slot_out,
                self.proposals == old(self).proposals,
                self.decisions == old(self).decisions,
                self.requests == old(self).requests,
                self.executed == old(self).executed,
                self.proposal_times == old(self).proposal_times,
                self.mailbox.inbox == old(self).mailbox.inbox,
                base == old(self).mailbox.outbox@.len(),
                self.mailbox.outbox@.len() == base + i,
                self.mailbox.outbox@.take(base) == old(self).mailbox.outbox@,
                forall|j: int|
                    0 <= j < i ==> env_is_propose(
                        #[trigger] self.mailbox.outbox@.skip(base)[j],
                        old(self).address,
                        old(self).config.id_address_map@[old(self).config.leaders@[j].0],
                        old(self).node_id,
                        slot,
                        *command,
                    ),
            decreases n - i,
        {
            let ldr = self.config.leaders.get(i);
            let msg = ProposeMessage {
                src: self.node_id,
                slot_number: slot,
                command: command.clone(),
            };
            let ldr_address = match self.config.get_address(ldr.as_ref()) {
                Some(a) => a.clone(),
                None => {
                    proof {
                        assert(false);
                    }
                    return Err(PaxosError::ConfigLookupMiss);
                },
            };
            let sendable = SendableMessage {
                src: self.address.clone(),
                dst: ldr_address,
                message: Message::Propose(msg),
            };
            let ghost pre_delta = self.mailbox.outbox@.skip(base);
            self.mailbox.send(sendable);
            proof {
                assert(self.mailbox.outbox@.skip(base) =~= pre_delta.push(sendable));
                assert(self.mailbox.outbox@.take(base) =~= old(self).mailbox.outbox@);
            }
            i = i + 1;
        }
        proof {
            Self::lemma_exec_log_linked(old(self), self);
        }
        Ok(())
    }

    /// Sends `Propose(slot, command)` to one leader; fails with
    /// `ConfigLookupMiss` when the leader has no address.
    pub fn send_message(&mut self, ldr: LeaderId, slot: u64, command: Command) -> (r: Result<
        (),
        PaxosError,
    >)
        requires
            old(self).config.id_address_map.uniq(),
        ensures
            final(self).node_id == old(self).node_id,
            final(self).address == old(self).address,
            final(self).config == old(self).config,
            final(self).clock == old(self).clock,
            final(self).slot_in == old(self).slot_in,
            final(self).slot_out == old(self).slot_out,
            final(self).proposals == old(self).proposals,
            final(self).decisions == old(self).decisions,
            final(self).requests == old(self).requests,
            final(self).executed == old(self).executed,
            final(self).proposal_times == old(self).proposal_times,
            final(self).mailbox.inbox == old(self).mailbox.inbox,
            if old(self).config.id_address_map@.dom().contains(ldr.0) {
                &&& r is Ok
                &&& final(self).mailbox.outbox@.len() == old(self).mailbox.outbox@.len() + 1
                &&& final(self).mailbox.outbox@.take(old(self).mailbox.outbox@.len() as int) == old(self).mailbox.outbox@
                &&& env_is_propose(
                    final(self).mailbox.outbox@.last(),
                    old(self).address,
                    old(self).config.id_address_map@[ldr.0],
                    old(self).node_id,
                    slot,
                    command,
                )
            } else {
                &&& r == Err::<(), PaxosError>(PaxosError::ConfigLookupMiss)
                &&& final(self).mailbox.outbox == old(self).mailbox.outbox
            },
    {
        let msg = ProposeMessage { src: self.node_id, slot_number: slot, command };
        let ldr_address = match self.config.get_address(ldr.as_ref()) {
            Some(a) => a.clone(),
            None => {
                return Err(PaxosError::ConfigLookupMiss);
            },
        };
        let sendable = SendableMessage {
            src: self.address.clone(),
            dst: ldr_address,
            message: Message::Propose(msg),
        };
        self.mailbox.send(sendable);
        Ok(())
    }

    /// Everything one [`Replica::handle_timer`] call does, stated between a
    /// pre state and a post state.
    pub open spec fn timer_effect(pre: Self, post: Self, action: ClockAction) -> bool {
        &&& post.mailbox.inbox == pre.mailbox.inbox
        &&& post.node_id == pre.node_id
        &&& post.address == pre.address
        &&& post.config == pre.config
        &&& post.slot_in == pre.slot_in
        &&& post.slot_out == pre.slot_out
        &&& post.proposals == pre.proposals
        &&& post.decisions == pre.decisions
        &&& post.requests == pre.requests
        &&& post.executed == pre.executed
        &&& action is ReproposePendingRequests ==> {
                &&& post.mailbox.outbox@.len() >= pre.mailbox.outbox@.len()
                &&& post.mailbox.outbox@.take(pre.mailbox.outbox@.len() as int)
                    == pre.mailbox.outbox@
                &&& forall|s: u64|
                    pre.proposals@.dom().contains(s) && !pre.decisions@.dom().contains(
                        s,
                    ) ==> #[trigger] post.proposal_times@.dom().contains(s) && post.proposal_times@[s] == pre.config.timeout_config.min_timeout
                &&& forall|s: u64|
                    pre.proposals@.dom().contains(s) && !pre.decisions@.dom().contains(
                        s,
                    ) ==> exists|k: int|
                        {
                            &&& pre.mailbox.outbox@.len() <= k
                            &&& k + pre.config.leaders@.len() <= post.mailbox.outbox@.len()
                            &&& propose_fanout(
                                #[trigger] post.mailbox.outbox@.subrange(
                                    k,
                                    k + pre.config.leaders@.len() as int,
                                ),
                                pre.config,
                                pre.address,
                                pre.node_id,
                                s,
                                pre.proposals@[s],
                            )
                        }
                &&& post.clock.timer_seq().len() == pre.clock.timer_seq().len() + 1
                &&& exists|idx: int|
                    {
                        &&& 0 <= idx < post.clock.timer_seq().len()
                        &&& (#[trigger] post.clock.timer_seq()[idx]).action
                            == ClockAction::ReproposePendingRequests
                        &&& pre.clock.time_known() ==> post.clock.timer_seq()[
                            idx
                        ].when == crate::nodes::clock::add_sat_spec(
                            pre.clock.current(),
                            (2 * pre.config.timeout_config.min_timeout) as u64,
                        )
                    }
            }
        &&& action is CheckSlotWindow ==> {
                &&& post.mailbox.outbox == pre.mailbox.outbox
                &&& post.proposal_times == pre.proposal_times
                &&& post.clock.timer_seq().len() == pre.clock.timer_seq().len() + 1
                &&& exists|idx: int|
                    {
                        &&& 0 <= idx < post.clock.timer_seq().len()
                        &&& (#[trigger] post.clock.timer_seq()[idx]).action
                            == ClockAction::CheckSlotWindow
                        &&& pre.clock.time_known() ==> post.clock.timer_seq()[
                            idx
                        ].when == crate::nodes::clock::add_sat_spec(
                            pre.clock.current(),
                            pre.config.timeout_config.max_timeout,
                        )
                    }
            }
        &&& !(action is ReproposePendingRequests || action is CheckSlotWindow) ==> post
                == pre
    }

    /// The timer effect depends only on the action's content.
    proof fn lemma_timer_effect_eq(pre: Self, post: Self, a: ClockAction, b: ClockAction)
        requires
            Self::timer_effect(pre, post, a),
            crate::nodes::clock::act_eq_spec(a, b),
        ensures
            Self::timer_effect(pre, post, b),
    {
    }

    /// `actions` were handled one after the other, each as
    /// [`Replica::handle_timer`] says.
    pub open spec fn timers_handled(pre: Self, post: Self, actions: Seq<ClockAction>) -> bool
        decreases actions.len(),
    {
        if actions.len() == 0 {
            post == pre
        } else {
            exists|mid: Replica<C>|
                #[trigger] Self::timer_effect(pre, mid, actions[0]) && Self::timers_handled(
                    mid,
                    post,
                    actions.drop_first(),
                )
        }
    }

    /// A handled chain extends by one more handled action.
    proof fn lemma_timers_handled_snoc(
        pre: Self,
        mid: Self,
        post: Self,
        actions: Seq<ClockAction>,
        a: ClockAction,
    )
        requires
            Self::timers_handled(pre, mid, actions),
            Self::timer_effect(mid, post, a),
        ensures
            Self::timers_handled(pre, post, actions.push(a)),
        decreases actions.len(),
    {
        let whole = actions.push(a);
        if actions.len() == 0 {
            assert(pre == mid);
            assert(whole[0] == a);
            assert(whole.drop_first() =~= Seq::<ClockAction>::empty());
            assert(Self::timers_handled(post, post, whole.drop_first()));
            assert(Self::timer_effect(pre, post, whole[0]) && Self::timers_handled(
                post,
                post,
                whole.drop_first(),
            ));
        } else {
            let m1 = choose|m1: Replica<C>|
                #[trigger] Self::timer_effect(pre, m1, actions[0]) && Self::timers_handled(
                    m1,
                    mid,
                    actions.drop_first(),
                );
            Self::lemma_timers_handled_snoc(m1, mid, post, actions.drop_first(), a);
            assert(whole.drop_first() =~= actions.drop_first().push(a));
            assert(whole[0] == actions[0]);
            assert(Self::timer_effect(pre, m1, whole[0]) && Self::timers_handled(
                m1,
                post,
                whole.drop_first(),
            ));
        }
    }

    /// Reacts to a timer action: the reproposal timer re-sends proposals
    /// without decisions; the slot check re-arms the progress watchdog; any
    /// other action is ignored.
    pub fn handle_timer(&mut self, action: ClockAction) -> (r: Result<(), PaxosError>)
        requires
            old(self).wf(),
        ensures
            final(self).wf(),
            r is Ok,
            final(self).node_id == old(self).node_id,
            final(self).address == old(self).address,
            final(self).config == old(self).config,
            final(self).slot_in == old(self).slot_in,
            final(self).slot_out == old(self).slot_out,
            final(self).proposals == old(self).proposals,
            final(self).decisions == old(self).decisions,
            final(self).requests == old(self).requests,
            final(self).executed == old(self).executed,
            final(self).mailbox.inbox == old(self).mailbox.inbox,
            action is ReproposePendingRequests ==> {
                &&& final(self).mailbox.outbox@.len() >= old(self).mailbox.outbox@.len()
                &&& final(self).mailbox.outbox@.take(old(self).mailbox.outbox@.len() as int)
                    == old(self).mailbox.outbox@
                &&& forall|s: u64|
                    old(self).proposals@.dom().contains(s) && !old(self).decisions@.dom().contains(
                        s,
                    ) ==> #[trigger] final(self).proposal_times@.dom().contains(s) && final(self).proposal_times@[s] == old(self).config.timeout_config.min_timeout
                &&& forall|s: u64|
                    old(self).proposals@.dom().contains(s) && !old(self).decisions@.dom().contains(
                        s,
                    ) ==> exists|k: int|
                        {
                            &&& old(self).mailbox.outbox@.len() <= k
                            &&& k + old(self).config.leaders@.len() <= final(self).mailbox.outbox@.len()
                            &&& propose_fanout(
                                #[trigger] final(self).mailbox.outbox@.subrange(
                                    k,
                                    k + old(self).config.leaders@.len() as int,
                                ),
                                old(self).config,
                                old(self).address,
                                old(self).node_id,
                                s,
                                old(self).proposals@[s],
                            )
                        }
                &&& final(self).clock.timer_seq().len() == old(self).clock.timer_seq().len() + 1
                &&& exists|idx: int|
                    {
                        &&& 0 <= idx < final(self).clock.timer_seq().len()
                        &&& (#[trigger] final(self).clock.timer_seq()[idx]).action
                            == ClockAction::ReproposePendingRequests
                        &&& old(self).clock.time_known() ==> final(self).clock.timer_seq()[
                            idx
                        ].when == crate::nodes::clock::add_sat_spec(
                            old(self).clock.current(),
                            (2 * old(self).config.timeout_config.min_timeout) as u64,
                        )
                    }
            },
            action is CheckSlotWindow ==> {
                &&& final(self).mailbox.outbox == old(self).mailbox.outbox
                &&& final(self).proposal_times == old(self).proposal_times
                &&& final(self).clock.timer_seq().len() == old(self).clock.timer_seq().len() + 1
                &&& exists|idx: int|
                    {
                        &&& 0 <= idx < final(self).clock.timer_seq().len()
                        &&& (#[trigger] final(self).clock.timer_seq()[idx]).action
                            == ClockAction::CheckSlotWindow
                        &&& old(self).clock.time_known() ==> final(self).clock.timer_seq()[
                            idx
                        ].when == crate::nodes::clock::add_sat_spec(
                            old(self).clock.current(),
                            old(self).config.timeout_config.max_timeout,
                        )
                    }
            },
            !(action is ReproposePendingRequests || action is CheckSlotWindow) ==> *final(self)
                == *old(self),
    {
        match action {
            ClockAction::ReproposePendingRequests => self.repropose_pending_requests(),
            ClockAction::CheckSlotWindow => self.check_slot_progress(),
            _ => Ok(()),
        }
    }

    /// Re-sends the Propose fan-out for every proposal that has no decision
    /// yet, refreshes its timeout bookkeeping, and re-arms the check.
    fn repropose_pending_requests(&mut self) -> (r: Result<(), PaxosError>)
        requires
            old(self).wf(),
        ensures
            final(self).wf(),
            r is Ok,
            final(self).node_id == old(self).node_id,
            final(self).address == old(self).address,
            final(self).config == old(self).config,
            final(self).slot_in == old(self).slot_in,
            final(self).slot_out == old(self).slot_out,
            final(self).proposals == old(self).proposals,
            final(self).decisions == old(self).decisions,
            final(self).requests == old(self).requests,
            final(self).executed == old(self).executed,
            final(self).mailbox.inbox == old(self).mailbox.inbox,
            final(self).mailbox.outbox@.len() >= old(self).mailbox.outbox@.len(),
            final(self).mailbox.outbox@.take(old(self).mailbox.outbox@.len() as int) == old(self).mailbox.outbox@,
            forall|j: int|
                old(self).mailbox.outbox@.len() <= j < final(self).mailbox.outbox@.len() ==> (
                #[trigger] final(self).mailbox.outbox@[j]).message is Propose,
            forall|s: u64|
                old(self).proposals@.dom().contains(s) && !old(self).decisions@.dom().contains(s)
                    ==> #[trigger] final(self).proposal_times@.dom().contains(s) && final(self).proposal_times@[s] == old(self).config.timeout_config.min_timeout,
            forall|s: u64|
                #[trigger] final(self).proposal_times@.dom().contains(s) ==> old(self).proposal_times@.dom().contains(s) || (old(self).proposals@.dom().contains(s)
                    && !old(self).decisions@.dom().contains(s)),
            forall|s: u64|
                #[trigger] old(self).proposal_times@.dom().contains(s) ==> final(self).proposal_times@.dom().contains(s),
            forall|s: u64|
                old(self).proposals@.dom().contains(s) && !old(self).decisions@.dom().contains(s)
                    ==> exists|k: int|
                    {
                        &&& old(self).mailbox.outbox@.len() <= k
                        &&& k + old(self).config.leaders@.len() <= final(self).mailbox.outbox@.len()
                        &&& propose_fanout(
                            #[trigger] final(self).mailbox.outbox@.subrange(
                                k,
                                k + old(self).config.leaders@.len() as int,
                            ),
                            old(self).config,
                            old(self).address,
                            old(self).node_id,
                            s,
                            old(self).proposals@[s],
                        )
                    },
            final(self).clock.timer_seq().len() == old(self).clock.timer_seq().len() + 1,
            exists|idx: int|
                {
                    &&& 0 <= idx < final(self).clock.timer_seq().len()
                    &&& (#[trigger] final(self).clock.timer_seq()[idx]).action
                        == ClockAction::ReproposePendingRequests
                    &&& old(self).clock.time_known() ==> final(self).clock.timer_seq()[idx].when
                        == crate::nodes::clock::add_sat_spec(
                        old(self).clock.current(),
                        (2 * old(self).config.timeout_config.min_timeout) as u64,
                    )
                },
    {
        // Collect the slots whose proposals still await a decision.
        let mut pending: Vec<(u64, Command)> = Vec::new();
        let n = self.proposals.len();
        let mut i: usize = 0;
        proof {
            self.proposals.lemma_view();
        }
        while i < n
            invariant
                n == self.proposals.entries().len(),
                i <= n,
                self.proposals.uniq(),
                self.decisions.uniq(),
                forall|j: int|
                    0 <= j < pending@.len() ==> self.proposals@.dom().contains(
                        (#[trigger] pending@[j]).0,
                    ) && !self.decisions@.dom().contains(pending@[j].0) && cmd_eq_spec(
                        pending@[j].1,
                        self.proposals@[pending@[j].0],
                    ),
                forall|ei: int|
                    0 <= ei < i && !self.decisions@.dom().contains(
                        (#[trigger] self.proposals.entries()[ei]).0,
                    ) ==> exists|j: int|
                        0 <= j < pending@.len() && (#[trigger] pending@[j]).0
                            == self.proposals.entries()[ei].0,
            decreases n - i,
        {
            let slot = self.proposals.key_at(i);
            proof {
                self.proposals.lemma_view();
            }
            if !self.decisions.contains_key(&slot) {
                let c = self.proposals.val_at(i).clone();
                let ghost before = pending@;
                pending.push((slot, c));
                proof {
                    assert(pending@.last().0 == slot);
                    assert(self.proposals@.dom().contains(slot) && self.proposals@[slot]
                        == self.proposals.entries()[i as int].1);
                    assert forall|ei: int|
                        0 <= ei < i + 1 && !self.decisions@.dom().contains(
                            (#[trigger] self.proposals.entries()[ei]).0,
                        ) implies exists|j: int|
                        0 <= j < pending@.len() && (#[trigger] pending@[j]).0
                            == self.proposals.entries()[ei].0 by {
                        if ei == i {
                            assert(pending@[pending@.len() - 1].0
                                == self.proposals.entries()[ei].0);
                        } else {
                            let j0 = choose|j0: int|
                                0 <= j0 < before.len() && (#[trigger] before[j0]).0
                                    == self.proposals.entries()[ei].0;
                            assert(pending@[j0].0 == self.proposals.entries()[ei].0);
                        }
                    }
                }
            } else {
                proof {
                    assert forall|ei: int|
                        0 <= ei < i + 1 && !self.decisions@.dom().contains(
                            (#[trigger] self.proposals.entries()[ei]).0,
                        ) implies exists|j: int|
                        0 <= j < pending@.len() && (#[trigger] pending@[j]).0
                            == self.proposals.entries()[ei].0 by {
                        if ei < i {
                            let j0 = choose|j0: int|
                                0 <= j0 < pending@.len() && (#[trigger] pending@[j0]).0
                                    == self.proposals.entries()[ei].0;
                        }
                    }
                }
            }
            i = i + 1;
        }
        proof {
            assert forall|s: u64|
                self.proposals@.dom().contains(s) && !self.decisions@.dom().contains(
                    s,
                ) implies exists|j: int|
                0 <= j < pending@.len() && (#[trigger] pending@[j]).0 == s by {
                let ei = choose|ei: int|
                    0 <= ei < self.proposals.entries().len() && (
                    #[trigger] self.proposals.entries()[ei]).0 == s;
                assert(!self.decisions@.dom().contains(self.proposals.entries()[ei].0));
            }
        }
        // Repropose each; leaders may have changed or messages were lost.
        let mut i: usize = 0;
        while i < pending.len()
            invariant
                old(self).wf(),
                i <= pending@.len(),
                self.wf(),
                self.node_id == old(self).node_id,
                self.address == old(self).address,
                self.config == old(self).config,
                self.slot_in == old(self).slot_in,
                self.slot_out == old(self).slot_out,
                self.proposals == old(self).proposals,
                self.decisions == old(self).decisions,
                self.requests == old(self).requests,
                self.executed == old(self).executed,
                self.clock == old(self).clock,
                self.mailbox.inbox == old(self).mailbox.inbox,
                self.mailbox.outbox@.len() >= old(self).mailbox.outbox@.len(),
                self.mailbox.outbox@.take(old(self).mailbox.outbox@.len() as int) == old(self).mailbox.outbox@,
                forall|j: int|
                    old(self).mailbox.outbox@.len() <= j < self.mailbox.outbox@.len() ==> (
                    #[trigger] self.mailbox.outbox@[j]).message is Propose,
                forall|j: int|
                    0 <= j < pending@.len() ==> old(self).proposals@.dom().contains(
                        (#[trigger] pending@[j]).0,
                    ) && !old(self).decisions@.dom().contains(pending@[j].0) && cmd_eq_spec(
                        pending@[j].1,
                        old(self).proposals@[pending@[j].0],
                    ),
                forall|s: u64|
                    old(self).proposals@.dom().contains(s) && !old(self).decisions@.dom().contains(
                        s,
                    ) ==> exists|j: int|
                        0 <= j < pending@.len() && (#[trigger] pending@[j]).0 == s,
                forall|j: int| #![trigger pending@[j]]
                    0 <= j < i ==> exists|k: int|
                        {
                            &&& old(self).mailbox.outbox@.len() <= k
                            &&& k + old(self).config.leaders@.len()
                                <= self.mailbox.outbox@.len()
                            &&& propose_fanout(
                                #[trigger] self.mailbox.outbox@.subrange(
                                    k,
                                    k + old(self).config.leaders@.len() as int,
                                ),
                                old(self).config,
                                old(self).address,
                                old(self).node_id,
                                pending@[j].0,
                                old(self).proposals@[pending@[j].0],
                            )
                        },
                forall|s: u64|
                    #[trigger] self.proposal_times@.dom().contains(s) ==> old(self).proposal_times@.dom().contains(s) || (old(self).proposals@.dom().contains(s)
                        && !old(self).decisions@.dom().contains(s)),
                forall|s: u64|
                    #[trigger] old(self).proposal_times@.dom().contains(s) ==> self.proposal_times@.dom().contains(s),
                forall|j: int|
                    0 <= j < i ==> #[trigger] self.proposal_times@.dom().contains(pending@[j].0)
                        && self.proposal_times@[pending@[j].0] == old(self).config.timeout_config.min_timeout,
            decreases pending@.len() - i,
        {
            let pair = &pending[i];
            let slot = pair.0;
            let c = pair.1.clone();
            let ghost pre_len = self.mailbox.outbox@.len() as int;
            let ghost pre_outbox = self.mailbox.outbox@;
            self.send_proposal_to_leaders(slot, &c)?;
            proof {
                assert forall|j: int|
                    old(self).mailbox.outbox@.len() <= j < self.mailbox.outbox@.len() implies (
                #[trigger] self.mailbox.outbox@[j]).message is Propose by {
                    if j < pre_len {
                        assert(self.mailbox.outbox@.take(pre_len)[j] == self.mailbox.outbox@[j]);
                    } else {
                        assert(self.mailbox.outbox@.skip(pre_len)[j - pre_len]
                            == self.mailbox.outbox@[j]);
                    }
                }
                assert(self.mailbox.outbox@.take(old(self).mailbox.outbox@.len() as int) =~= old(
                    self,
                ).mailbox.outbox@);
                // The fresh fan-out serves this pending slot, against the
                // stored proposal.
                let ln = old(self).config.leaders@.len() as int;
                let target = old(self).proposals@[slot];
                assert forall|q: int| 0 <= q < ln implies env_is_propose(
                    #[trigger] self.mailbox.outbox@.subrange(pre_len, pre_len + ln)[q],
                    old(self).address,
                    old(self).config.id_address_map@[old(self).config.leaders@[q].0],
                    old(self).node_id,
                    slot,
                    target,
                ) by {
                    assert(self.mailbox.outbox@.subrange(pre_len, pre_len + ln)[q]
                        == self.mailbox.outbox@.skip(pre_len)[q]);
                    let sent = self.mailbox.outbox@.skip(pre_len)[q];
                    let mc = sent.message->Propose_0.command;
                    lemma_cmd_eq_trans(mc, c, pending@[i as int].1);
                    lemma_cmd_eq_trans(mc, pending@[i as int].1, target);
                }
                assert(propose_fanout(
                    self.mailbox.outbox@.subrange(pre_len, pre_len + ln),
                    old(self).config,
                    old(self).address,
                    old(self).node_id,
                    slot,
                    target,
                ));
                // Earlier fan-outs are untouched by the append.
                assert forall|j: int| #![trigger pending@[j]] 0 <= j < i implies exists|k: int|
                    {
                        &&& old(self).mailbox.outbox@.len() <= k
                        &&& k + old(self).config.leaders@.len() <= self.mailbox.outbox@.len()
                        &&& propose_fanout(
                            #[trigger] self.mailbox.outbox@.subrange(
                                k,
                                k + old(self).config.leaders@.len() as int,
                            ),
                            old(self).config,
                            old(self).address,
                            old(self).node_id,
                            pending@[j].0,
                            old(self).proposals@[pending@[j].0],
                        )
                    } by {
                    let k0 = choose|k0: int|
                        {
                            &&& old(self).mailbox.outbox@.len() <= k0
                            &&& k0 + old(self).config.leaders@.len() <= pre_outbox.len()
                            &&& propose_fanout(
                                #[trigger] pre_outbox.subrange(
                                    k0,
                                    k0 + old(self).config.leaders@.len() as int,
                                ),
                                old(self).config,
                                old(self).address,
                                old(self).node_id,
                                pending@[j].0,
                                old(self).proposals@[pending@[j].0],
                            )
                        };
                    assert(self.mailbox.outbox@.subrange(
                        k0,
                        k0 + old(self).config.leaders@.len() as int,
                    ) =~= pre_outbox.subrange(k0, k0 + old(self).config.leaders@.len() as int));
                }
            }
            let min_t = self.config.timeout_config.min_timeout;
            let ghost pt_before = self.proposal_times@;
            self.proposal_times.insert(slot, min_t);
            proof {
                Self::lemma_exec_log_linked(old(self), self);
                assert forall|j: int|
                    0 <= j < i + 1 implies #[trigger] self.proposal_times@.dom().contains(
                    pending@[j].0,
                ) && self.proposal_times@[pending@[j].0]
                    == old(self).config.timeout_config.min_timeout by {
                    if j == i {
                        assert(self.proposal_times@[slot] == min_t);
                    } else {
                        if pending@[j].0 == slot {
                            assert(self.proposal_times@[pending@[j].0] == min_t);
                        } else {
                            assert(self.proposal_times@[pending@[j].0] == pt_before[pending@[
                                j
                            ].0]);
                        }
                    }
                }
            }
            i = i + 1;
        }
        let ghost clock_before = self.clock;
        self.schedule_repropose_check();
        proof {
            let delay: u64 = (2 * old(self).config.timeout_config.min_timeout) as u64;
            let idx = choose|idx: int|
                {
                    &&& 0 <= idx < self.clock.timer_seq().len()
                    &&& (#[trigger] self.clock.timer_seq()[idx]).action
                        == ClockAction::ReproposePendingRequests
                    &&& clock_before.time_known() ==> self.clock.timer_seq()[idx].when
                        == crate::nodes::clock::add_sat_spec(clock_before.current(), delay)
                };
            assert(self.clock.timer_seq()[idx].action == ClockAction::ReproposePendingRequests);
        }
        Ok(())
    }

    /// Checks that `slot_out` keeps advancing; for now only re-arms itself.
    fn check_slot_progress(&mut self) -> (r: Result<(), PaxosError>)
        requires
            old(self).wf(),
        ensures
            final(self).wf(),
            r is Ok,
            final(self).node_id == old(self).node_id,
            final(self).address == old(self).address,
            final(self).config == old(self).config,
            final(self).mailbox == old(self).mailbox,
            final(self).slot_in == old(self).slot_in,
            final(self).slot_out == old(self).slot_out,
            final(self).proposals == old(self).proposals,
            final(self).decisions == old(self).decisions,
            final(self).requests == old(self).requests,
            final(self).executed == old(self).executed,
            final(self).proposal_times == old(self).proposal_times,
            final(self).clock.timer_seq().len() == old(self).clock.timer_seq().len() + 1,
            exists|idx: int|
                {
                    &&& 0 <= idx < final(self).clock.timer_seq().len()
                    &&& (#[trigger] final(self).clock.timer_seq()[idx]).action
                        == ClockAction::CheckSlotWindow
                    &&& old(self).clock.time_known() ==> final(self).clock.timer_seq()[idx].when
                        == crate::nodes::clock::add_sat_spec(
                        old(self).clock.current(),
                        old(self).config.timeout_config.max_timeout,
                    )
                },
    {
        self.schedule_slot_check()
    }

    /// Arms the next reproposal check, two minimum timeouts from now.
    fn schedule_repropose_check(&mut self)
        requires
            old(self).wf(),
        ensures
            final(self).wf(),
            final(self).node_id == old(self).node_id,
            final(self).address == old(self).address,
            final(self).config == old(self).config,
            final(self).mailbox == old(self).mailbox,
            final(self).slot_in == old(self).slot_in,
            final(self).slot_out == old(self).slot_out,
            final(self).proposals == old(self).proposals,
            final(self).decisions == old(self).decisions,
            final(self).requests == old(self).requests,
            final(self).executed == old(self).executed,
            final(self).proposal_times == old(self).proposal_times,
            final(self).clock.timer_seq().len() == old(self).clock.timer_seq().len() + 1,
            exists|idx: int|
                {
                    &&& 0 <= idx < final(self).clock.timer_seq().len()
                    &&& (#[trigger] final(self).clock.timer_seq()[idx]).action
                        == ClockAction::ReproposePendingRequests
                    &&& old(self).clock.time_known() ==> final(self).clock.timer_seq()[idx].when
                        == crate::nodes::clock::add_sat_spec(
                        old(self).clock.current(),
                        (2 * old(self).config.timeout_config.min_timeout) as u64,
                    )
                },
    {
        let timeout = self.config.timeout_config.min_timeout * 2;
        self.clock.schedule(ClockAction::ReproposePendingRequests, timeout);
        proof {
            Self::lemma_exec_log_linked(old(self), self);
            let (idx, w): (int, u64) = choose|idx: int, w: u64|
                {
                    &&& 0 <= idx <= old(self).clock.timer_seq().len()
                    &&& self.clock.timer_seq() == old(self).clock.timer_seq().insert(
                        idx,
                        crate::nodes::clock::TimerEvent {
                            when: w,
                            action: ClockAction::ReproposePendingRequests,
                        },
                    )
                    &&& old(self).clock.time_known() ==> w == crate::nodes::clock::add_sat_spec(
                        old(self).clock.current(),
                        timeout,
                    )
                };
            assert(self.clock.timer_seq()[idx].action == ClockAction::ReproposePendingRequests);
        }
    }

    /// Arms the next slot progress check, one maximum timeout from now.
    fn schedule_slot_check(&mut self) -> (r: Result<(), PaxosError>)
        requires
            old(self).wf(),
        ensures
            final(self).wf(),
            r is Ok,
            final(self).node_id == old(self).node_id,
            final(self).address == old(self).address,
            final(self).config == old(self).config,
            final(self).mailbox == old(self).mailbox,
            final(self).slot_in == old(self).slot_in,
            final(self).slot_out == old(self).slot_out,
            final(self).proposals == old(self).proposals,
            final(self).decisions == old(self).decisions,
            final(self).requests == old(self).requests,
            final(self).executed == old(self).executed,
            final(self).proposal_times == old(self).proposal_times,
            final(self).clock.timer_seq().len() == old(self).clock.timer_seq().len() + 1,
            exists|idx: int|
                {
                    &&& 0 <= idx < final(self).clock.timer_seq().len()
                    &&& (#[trigger] final(self).clock.timer_seq()[idx]).action
                        == ClockAction::CheckSlotWindow
                    &&& old(self).clock.time_known() ==> final(self).clock.timer_seq()[idx].when
                        == crate::nodes::clock::add_sat_spec(
                        old(self).clock.current(),
                        old(self).config.timeout_config.max_timeout,
                    )
                },
    {
        let timeout = self.config.timeout_config.max_timeout;
        self.clock.schedule(ClockAction::CheckSlotWindow, timeout);
        proof {
            Self::lemma_exec_log_linked(old(self), self);
            let (idx, w): (int, u64) = choose|idx: int, w: u64|
                {
                    &&& 0 <= idx <= old(self).clock.timer_seq().len()
                    &&& self.clock.timer_seq() == old(self).clock.timer_seq().insert(
                        idx,
                        crate::nodes::clock::TimerEvent {
                            when: w,
                            action: ClockAction::CheckSlotWindow,
                        },
                    )
                    &&& old(self).clock.time_known() ==> w == crate::nodes::clock::add_sat_spec(
                        old(self).clock.current(),
                        timeout,
                    )
                };
            assert(self.clock.timer_seq()[idx].action == ClockAction::CheckSlotWindow);
        }
        Ok(())
    }

    /// Fires the due timers: collects them from the clock and handles each
    /// in order.  Returns the actions that fired.
    pub fn check_timers(&mut self) -> (r: Result<Vec<ClockAction>, PaxosError>)
        requires
            old(self).wf(),
        ensures
            final(self).wf(),
            r is Ok,
            final(self).node_id == old(self).node_id,
            final(self).address == old(self).address,
            final(self).config == old(self).config,
            final(self).slot_out == old(self).slot_out,
            final(self).decisions == old(self).decisions,
            final(self).executed == old(self).executed,
            match r {
                Ok(actions) => {
                    &&& actions@.len() <= old(self).clock.timer_seq().len()
                    &&& forall|j: int|
                        0 <= j < actions@.len() ==> actions@[j] == old(self).clock.timer_seq()[
                            j
                        ].action
                    &&& old(self).clock.time_known() ==> (forall|j: int|
                        0 <= j < actions@.len() ==> old(self).clock.timer_seq()[j].when <= old(self).clock.current()) && (forall|j: int|
                        actions@.len() <= j < old(self).clock.timer_seq().len() ==> old(self).clock.timer_seq()[j].when > old(self).clock.current())
                    &&& exists|start: Replica<C>|
                        {
                            &&& start.node_id == old(self).node_id
                            &&& start.address == old(self).address
                            &&& start.config == old(self).config
                            &&& start.mailbox == old(self).mailbox
                            &&& start.slot_in == old(self).slot_in
                            &&& start.slot_out == old(self).slot_out
                            &&& start.proposals == old(self).proposals
                            &&& start.decisions == old(self).decisions
                            &&& start.requests == old(self).requests
                            &&& start.executed == old(self).executed
                            &&& start.proposal_times == old(self).proposal_times
                            &&& start.clock.timer_seq() == old(self).clock.timer_seq().skip(
                                actions@.len() as int,
                            )
                            &&& #[trigger] Self::timers_handled(start, *final(self), actions@)
                        }
                },
                Err(_) => false,
            },
    {
        let expired = self.clock.check_timers();
        proof {
            Self::lemma_exec_log_linked(old(self), self);
        }
        let ghost start0 = *self;
        let mut i: usize = 0;
        while i < expired.len()
            invariant
                self.wf(),
                self.node_id == old(self).node_id,
                self.address == old(self).address,
                self.config == old(self).config,
                self.slot_out == old(self).slot_out,
                self.decisions == old(self).decisions,
                self.executed == old(self).executed,
                i <= expired@.len(),
                Self::timers_handled(start0, *self, expired@.take(i as int)),
            decreases expired@.len() - i,
        {
            let ghost prev = *self;
            let action = expired[i].clone();
            let ghost ga = action;
            match self.handle_timer(action) {
                Ok(_) => (),
                Err(_) => (),
            }
            proof {
                assert(Self::timer_effect(prev, *self, ga));
                Self::lemma_timer_effect_eq(prev, *self, ga, expired@[i as int]);
                Self::lemma_timers_handled_snoc(
                    start0,
                    prev,
                    *self,
                    expired@.take(i as int),
                    expired@[i as int],
                );
                assert(expired@.take(i + 1 as int) =~= expired@.take(i as int).push(
                    expired@[i as int],
                ));
            }
            i = i + 1;
        }
        proof {
            assert(expired@.take(expired@.len() as int) =~= expired@);
            assert(Self::timers_handled(start0, *self, expired@));
        }
        Ok(expired)
    }

    /// Empties the outbox; stands in for a transport picking everything up.
    pub fn drain_outbox(&mut self)
        ensures
            final(self).mailbox.outbox@ == Seq::<SendableMessage>::empty(),
            final(self).mailbox.inbox == old(self).mailbox.inbox,
            final(self).proposals == old(self).proposals,
            final(self).decisions == old(self).decisions,
            final(self).requests == old(self).requests,
            final(self).executed == old(self).executed,
            final(self).slot_in == old(self).slot_in,
            final(self).slot_out == old(self).slot_out,
            final(self).config == old(self).config,
            final(self).clock == old(self).clock,
            final(self).node_id == old(self).node_id,
            final(self).address == old(self).address,
            final(self).proposal_times == old(self).proposal_times,
            old(self).wf() ==> final(self).wf(),
    {
        self.mailbox.clear_outbox();
        proof {
            if old(self).wf() {
                Self::lemma_exec_log_linked(old(self), self);
            }
        }
    }
}

/// At-most-once execution: under the replica's invariant no two entries of
/// the execution log hold the same command, however many slots decided it.
pub proof fn lemma_at_most_once_execution<C: ClockProvider>(r: &Replica<C>)
    requires
        r.wf(),
    ensures
        forall|i: int, j: int|
            0 <= i < j < r.executed@.len() ==> !cmd_eq_spec(
                #[trigger] r.executed@[i],
                #[trigger] r.executed@[j],
            ),
{
}

/// The window bound: a replica never runs more than `WINDOW` slots ahead of
/// what it has performed.
pub proof fn lemma_window_bound<C: ClockProvider>(r: &Replica<C>)
    requires
        r.wf(),
    ensures
        r.slot_in - r.slot_out <= WINDOW,
{
}

/// Slot continuity: every slot below `slot_out` was performed off a
/// recorded decision; together with `perform` advancing `slot_out` by
/// exactly one per call, no slot is ever skipped.
pub proof fn lemma_slot_continuity<C: ClockProvider>(r: &Replica<C>)
    requires
        r.wf(),
    ensures
        forall|s: u64| 1 <= s < r.slot_out ==> #[trigger] r.decisions@.dom().contains(s),
{
}

} // verus!
