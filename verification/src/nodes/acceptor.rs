//! The acceptor: the promise-and-accept state machine.  Per slot it tracks
//! the highest ballot it promised and the last proposal it accepted, with
//! slot 0 doubling as the global promise that phase 1 establishes.  Both
//! maps only ever grow towards higher ballots; the monotonicity is part of
//! every handler's contract.

use crate::messages::{
    env_is_p1b, env_is_p2b, Message, P1bMessage, P2bMessage, SendableMessage,
};
use crate::messages;
use crate::nodes::clock::{add_sat_spec, ClockAction, ClockProvider, TimerEvent};
use crate::nodes::mailbox::Mailbox;
use crate::store::KeyMap;
use crate::types::{
    ballot_le, AcceptorId, Address, BallotNumber, Command, Config, LeaderId, PValue, PaxosError,
};
use vstd::prelude::*;

verus! {

/// The messages an acceptor handles.
pub enum AcceptorMessageIn {
    P1a(messages::P1aMessage),
    P2a(messages::P2aMessage),
}

/// The ballot an acceptor holds slot `s` to: the stored promise, or the zero
/// ballot of the asking leader where none is stored yet.
pub open spec fn promised_or_default(
    m: Map<u64, BallotNumber>,
    s: u64,
    src: LeaderId,
) -> BallotNumber {
    if m.dom().contains(s) {
        m[s]
    } else {
        BallotNumber { round: 0, leader: src }
    }
}

/// The PValues an acceptor reports for ballot `b`: one for each accepted
/// entry whose ballot equals `b`, in storage order.
pub open spec fn pvalues_for(
    entries: Seq<(u64, (BallotNumber, Command))>,
    b: BallotNumber,
) -> Seq<PValue> {
    entries.filter(|e: (u64, (BallotNumber, Command))| e.1.0 == b).map(
        |i: int, e: (u64, (BallotNumber, Command))|
            PValue { ballot_number: e.1.0, slot: e.0, command: e.1.1 },
    )
}

/// Extending the scanned prefix by one entry extends the report by at most
/// that entry's PValue.
proof fn lemma_pvalues_for_step(
    entries: Seq<(u64, (BallotNumber, Command))>,
    i: int,
    b: BallotNumber,
)
    requires
        0 <= i < entries.len(),
    ensures
        entries[i].1.0 == b ==> pvalues_for(entries.take(i + 1), b) == pvalues_for(
            entries.take(i),
            b,
        ).push(
            PValue {
                ballot_number: entries[i].1.0,
                slot: entries[i].0,
                command: entries[i].1.1,
            },
        ),
        entries[i].1.0 != b ==> pvalues_for(entries.take(i + 1), b) == pvalues_for(
            entries.take(i),
            b,
        ),
{
    reveal(Seq::filter);
    let p = |e: (u64, (BallotNumber, Command))| e.1.0 == b;
    let f = |j: int, e: (u64, (BallotNumber, Command))|
        PValue { ballot_number: e.1.0, slot: e.0, command: e.1.1 };
    assert(entries.take(i + 1).drop_last() =~= entries.take(i));
    assert(entries.take(i + 1).last() == entries[i]);
    if entries[i].1.0 == b {
        assert(entries.take(i + 1).filter(p) == entries.take(i).filter(p).push(entries[i]));
        assert(entries.take(i).filter(p).push(entries[i]).map(f) =~= entries.take(i).filter(
            p,
        ).map(f).push(f(entries.take(i).filter(p).len() as int, entries[i])));
    } else {
        assert(entries.take(i + 1).filter(p) == entries.take(i).filter(p));
    }
}

/// An acceptor process.
pub struct Acceptor<C: ClockProvider> {
    pub node_id: AcceptorId,
    pub address: Address,
    pub config: Config,
    pub mailbox: Mailbox,
    /// Per slot, the highest ballot promised; slot 0 carries the global
    /// promise that P1a establishes.
    pub promised: KeyMap<u64, BallotNumber>,
    /// Per slot, the ballot and command last accepted.
    pub accepted: KeyMap<u64, (BallotNumber, Command)>,
    pub clock: C,
}

impl<C: ClockProvider> Acceptor<C> {
    /// The acceptor's invariant: a usable configuration, intact stores, and
    /// for every slot with an accepted proposal, a promise at least as high
    /// as the accepted ballot.
    pub open spec fn wf(&self) -> bool {
        &&& self.config.wf()
        &&& self.promised.uniq()
        &&& self.accepted.uniq()
        &&& self.clock.wf()
        &&& forall|s: u64|
            #[trigger] self.accepted@.dom().contains(s) ==> self.promised@.dom().contains(s)
                && ballot_le(self.accepted@[s].0, self.promised@[s])
    }

    /// The acceptor's step relation: everything one [`Acceptor::handle_msg`]
    /// call does, stated between a pre state and a post state.  The inbox is
    /// deliberately not constrained, so the dispatcher that popped the
    /// envelope can state its own effect through this same relation.
    pub open spec fn step_effect(
        pre: Self,
        post: Self,
        msg: AcceptorMessageIn,
        r: Result<(), PaxosError>,
    ) -> bool {
        &&& post.node_id == pre.node_id
        &&& post.address == pre.address
        &&& post.config == pre.config
        &&& post.clock == pre.clock
        &&& match msg {
            AcceptorMessageIn::P1a(m) => {
                let granted = ballot_le(
                    promised_or_default(pre.promised@, 0, m.src),
                    m.ballot_number,
                );
                &&& !granted ==> r is Ok && post.promised == pre.promised && post.accepted
                    == pre.accepted && post.mailbox.outbox == pre.mailbox.outbox
                &&& granted ==> {
                    &&& post.promised@ == pre.promised@.insert(0, m.ballot_number)
                    &&& post.accepted == pre.accepted
                    &&& if pre.config.id_address_map@.dom().contains(m.src.0) {
                        &&& r is Ok
                        &&& post.mailbox.outbox@ == pre.mailbox.outbox@.push(
                            post.mailbox.outbox@.last(),
                        )
                        &&& env_is_p1b(
                            post.mailbox.outbox@.last(),
                            pre.address,
                            pre.config.id_address_map@[m.src.0],
                            pre.node_id,
                            m.ballot_number,
                            pvalues_for(pre.accepted.entries(), m.ballot_number),
                        )
                    } else {
                        &&& r == Err::<(), PaxosError>(PaxosError::ConfigLookupMiss)
                        &&& post.mailbox.outbox == pre.mailbox.outbox
                    }
                }
            },
            AcceptorMessageIn::P2a(m) => {
                let granted = ballot_le(
                    promised_or_default(pre.promised@, m.slot_number, m.src),
                    m.ballot_number,
                );
                &&& !granted ==> r is Ok && post.promised == pre.promised && post.accepted
                    == pre.accepted && post.mailbox.outbox == pre.mailbox.outbox
                &&& granted ==> {
                    &&& post.promised@ == pre.promised@.insert(m.slot_number, m.ballot_number)
                    &&& post.accepted@ == pre.accepted@.insert(
                        m.slot_number,
                        (m.ballot_number, m.command),
                    )
                    &&& if pre.config.id_address_map@.dom().contains(m.src.0) {
                        &&& r is Ok
                        &&& post.mailbox.outbox@ == pre.mailbox.outbox@.push(
                            post.mailbox.outbox@.last(),
                        )
                        &&& env_is_p2b(
                            post.mailbox.outbox@.last(),
                            pre.address,
                            pre.config.id_address_map@[m.src.0],
                            pre.node_id,
                            m.ballot_number,
                            m.slot_number,
                        )
                    } else {
                        &&& r == Err::<(), PaxosError>(PaxosError::ConfigLookupMiss)
                        &&& post.mailbox.outbox == pre.mailbox.outbox
                    }
                }
            },
        }
    }

    /// The step relation only reads the parts of the pre state it mentions:
    /// a pre state equal on those parts supports the same step.
    proof fn lemma_step_effect_frame(
        a: Self,
        a2: Self,
        b: Self,
        msg: AcceptorMessageIn,
        r: Result<(), PaxosError>,
    )
        requires
            Self::step_effect(a, b, msg, r),
            a2.promised == a.promised,
            a2.accepted == a.accepted,
            a2.mailbox.outbox == a.mailbox.outbox,
            a2.node_id == a.node_id,
            a2.address == a.address,
            a2.config == a.config,
            a2.clock == a.clock,
        ensures
            Self::step_effect(a2, b, msg, r),
    {
    }

    /// Builds an acceptor.  Fails with `ConfigLookupMiss` unless the
    /// configuration is well formed and has an address for this acceptor;
    /// the error also stands for a malformed configuration, since a member
    /// without an address is the way such a configuration first bites.
    pub fn new(acceptor_id: AcceptorId, config: Config, mailbox: Mailbox, clock: C) -> (r: Result<
        Acceptor<C>,
        PaxosError,
    >)
        requires
            clock.wf(),
        ensures
            r is Ok <==> config.wf() && config.id_address_map@.dom().contains(acceptor_id.0),
            match r {
                Ok(a) => {
                    &&& a.wf()
                    &&& a.node_id == acceptor_id
                    &&& a.address == config.id_address_map@[acceptor_id.0]
                    &&& a.config == config
                    &&& a.mailbox == mailbox
                    &&& a.clock == clock
                    &&& a.promised@ == Map::<u64, BallotNumber>::empty()
                    &&& a.accepted@ == Map::<u64, (BallotNumber, Command)>::empty()
                },
                Err(e) => e == PaxosError::ConfigLookupMiss,
            },
    {
        if !config.is_well_formed() {
            return Err(PaxosError::ConfigLookupMiss);
        }
        let addr = match config.get_address(acceptor_id.as_ref()) {
            Some(a) => a.clone(),
            None => {
                return Err(PaxosError::ConfigLookupMiss);
            },
        };
        Ok(
            Acceptor {
                node_id: acceptor_id,
                address: addr,
                config,
                mailbox,
                promised: KeyMap::new(),
                accepted: KeyMap::new(),
                clock,
            },
        )
    }

    /// Queues an inbound envelope.
    pub fn accept_message(&mut self, msg: SendableMessage)
        ensures
            final(self).mailbox.inbox@ == old(self).mailbox.inbox@.push(msg),
            final(self).mailbox.outbox == old(self).mailbox.outbox,
            final(self).promised == old(self).promised,
            final(self).accepted == old(self).accepted,
            final(self).config == old(self).config,
            final(self).clock == old(self).clock,
            final(self).node_id == old(self).node_id,
            final(self).address == old(self).address,
            old(self).wf() ==> final(self).wf(),
    {
        self.mailbox.receive(msg);
    }

    /// Takes one envelope from the inbox and processes it.  Returns true
    /// exactly when an applicable message was handled without error; other
    /// payload variants are dropped.
    pub fn work_on_message(&mut self) -> (r: bool)
        requires
            old(self).wf(),
        ensures
            final(self).wf(),
            old(self).mailbox.inbox@.len() == 0 ==> r == false && final(self).mailbox.inbox@
                == old(self).mailbox.inbox@ && final(self).mailbox.outbox == old(self).mailbox.outbox && final(self).promised == old(self).promised && final(self).accepted
                == old(self).accepted && final(self).clock == old(self).clock,
            old(self).mailbox.inbox@.len() > 0 ==> final(self).mailbox.inbox@ == old(self).mailbox.inbox@.drop_first(),
            old(self).mailbox.inbox@.len() > 0 ==> match old(self).mailbox.inbox@[0].message {
                Message::P1a(m) => Self::step_effect(
                    *old(self),
                    *final(self),
                    AcceptorMessageIn::P1a(m),
                    if r {
                        Ok(())
                    } else {
                        Err(PaxosError::ConfigLookupMiss)
                    },
                ),
                Message::P2a(m) => Self::step_effect(
                    *old(self),
                    *final(self),
                    AcceptorMessageIn::P2a(m),
                    if r {
                        Ok(())
                    } else {
                        Err(PaxosError::ConfigLookupMiss)
                    },
                ),
                _ => r == false && final(self).promised == old(self).promised && final(self).accepted == old(self).accepted && final(self).mailbox.outbox == old(self).mailbox.outbox && final(self).clock == old(self).clock,
            },
            final(self).node_id == old(self).node_id,
            final(self).address == old(self).address,
            final(self).config == old(self).config,
            forall|s: u64|
                #[trigger] old(self).promised@.dom().contains(s)
                    ==> final(self).promised@.dom().contains(s) && ballot_le(
                    old(self).promised@[s],
                    final(self).promised@[s],
                ),
            forall|s: u64|
                #[trigger] old(self).accepted@.dom().contains(s)
                    ==> final(self).accepted@.dom().contains(s) && ballot_le(
                    old(self).accepted@[s].0,
                    final(self).accepted@[s].0,
                ),
    {
        let received_msg = match self.mailbox.process_latest_in() {
            None => {
                return false;
            },
            Some(msg_in) => msg_in,
        };
        let ghost mid = *self;
        let inbox_received = match received_msg.message {
            Message::P1a(m) => AcceptorMessageIn::P1a(m),
            Message::P2a(m) => AcceptorMessageIn::P2a(m),
            _ => {
                return false;
            },
        };
        let ghost gmsg = inbox_received;
        let handled = match self.handle_msg(inbox_received) {
            Ok(_) => true,
            Err(_) => false,
        };
        proof {
            let res: Result<(), PaxosError> = if handled {
                Ok(())
            } else {
                Err(PaxosError::ConfigLookupMiss)
            };
            Self::lemma_step_effect_frame(mid, *old(self), *self, gmsg, res);
        }
        handled
    }

    /// The acceptor's step function.
    ///
    /// On P1a(b): if `b` is at least the global promise (slot 0, defaulting
    /// to the zero ballot of the asking leader), promise `b` and reply P1b
    /// reporting every accepted proposal whose ballot equals `b`; otherwise
    /// stay silent.  On P2a(b, s, c): if `b` is at least the promise for
    /// slot `s`, promise and accept `(b, c)` at `s` and reply P2b; otherwise
    /// stay silent.  Promises and accepted ballots never decrease.  The
    /// reply fails with `ConfigLookupMiss` exactly when the asking leader
    /// has no address in the configuration.
    pub fn handle_msg(&mut self, msg: AcceptorMessageIn) -> (r: Result<(), PaxosError>)
        requires
            old(self).wf(),
        ensures
            final(self).wf(),
            final(self).node_id == old(self).node_id,
            final(self).address == old(self).address,
            final(self).config == old(self).config,
            final(self).clock == old(self).clock,
            final(self).mailbox.inbox == old(self).mailbox.inbox,
            forall|s: u64|
                #[trigger] old(self).promised@.dom().contains(s)
                    ==> final(self).promised@.dom().contains(s) && ballot_le(
                    old(self).promised@[s],
                    final(self).promised@[s],
                ),
            forall|s: u64|
                #[trigger] old(self).accepted@.dom().contains(s)
                    ==> final(self).accepted@.dom().contains(s) && ballot_le(
                    old(self).accepted@[s].0,
                    final(self).accepted@[s].0,
                ),
            Self::step_effect(*old(self), *final(self), msg, r),
    {
        match msg {
            AcceptorMessageIn::P1a(p1a_msg) => {
                let ballot_number = p1a_msg.ballot_number;
                let mut accepted_list: Vec<PValue> = Vec::new();
                let n = self.accepted.len();
                let mut i: usize = 0;
                while i < n
                    invariant
                        n == self.accepted.entries().len(),
                        i <= n,
                        self.accepted.uniq(),
                        crate::messages::pvs_eq(
                            accepted_list@,
                            pvalues_for(self.accepted.entries().take(i as int), ballot_number),
                        ),
                    decreases n - i,
                {
                    let slot = self.accepted.key_at(i);
                    let pair = self.accepted.val_at(i);
                    proof {
                        lemma_pvalues_for_step(self.accepted.entries(), i as int, ballot_number);
                    }
                    if pair.0 == ballot_number {
                        accepted_list.push(
                            PValue { ballot_number: pair.0, slot, command: pair.1.clone() },
                        );
                    }
                    i = i + 1;
                }
                proof {
                    assert(self.accepted.entries().take(n as int) =~= self.accepted.entries());
                }
                let promised_ballot = match self.promised.get(&0) {
                    Some(b) => *b,
                    None => BallotNumber::new(p1a_msg.src),
                };
                if promised_ballot.le(&ballot_number) {
                    self.promised.insert(0, ballot_number);
                    self.send_p1b(p1a_msg.src, ballot_number, accepted_list)?;
                }
                Ok(())
            },
            AcceptorMessageIn::P2a(p2a_msg) => {
                let ballot = p2a_msg.ballot_number;
                let slot = p2a_msg.slot_number;
                let promised_ballot = match self.promised.get(&slot) {
                    Some(b) => *b,
                    None => BallotNumber::new(p2a_msg.src),
                };
                if promised_ballot.le(&ballot) {
                    self.promised.insert(slot, ballot);
                    self.accepted.insert(slot, (ballot, p2a_msg.command));
                    proof {
                        crate::types::lemma_ballot_order_transitive(
                            promised_or_default(old(self).promised@, slot, p2a_msg.src),
                            promised_or_default(old(self).promised@, slot, p2a_msg.src),
                            ballot,
                        );
                    }
                    self.send_p2b(p2a_msg.src, ballot, slot)?;
                }
                Ok(())
            },
        }
    }

    /// Sends a P1b promise to `leader`; fails with `ConfigLookupMiss` when
    /// no address is registered for it.
    pub fn send_p1b(
        &mut self,
        leader: LeaderId,
        ballot: BallotNumber,
        accepted: Vec<PValue>,
    ) -> (r: Result<(), PaxosError>)
        requires
            old(self).config.id_address_map.uniq(),
        ensures
            final(self).node_id == old(self).node_id,
            final(self).address == old(self).address,
            final(self).config == old(self).config,
            final(self).clock == old(self).clock,
            final(self).promised == old(self).promised,
            final(self).accepted == old(self).accepted,
            final(self).mailbox.inbox == old(self).mailbox.inbox,
            if old(self).config.id_address_map@.dom().contains(leader.0) {
                &&& r is Ok
                &&& final(self).mailbox.outbox@ == old(self).mailbox.outbox@.push(
                    SendableMessage {
                        src: old(self).address,
                        dst: old(self).config.id_address_map@[leader.0],
                        message: Message::P1b(
                            P1bMessage { src: old(self).node_id, ballot_number: ballot, accepted },
                        ),
                    },
                )
            } else {
                &&& r == Err::<(), PaxosError>(PaxosError::ConfigLookupMiss)
                &&& final(self).mailbox.outbox == old(self).mailbox.outbox
            },
    {
        let msg = P1bMessage { src: self.node_id, ballot_number: ballot, accepted };
        let ldr_address = match self.config.get_address(leader.as_ref()) {
            Some(a) => a.clone(),
            None => {
                return Err(PaxosError::ConfigLookupMiss);
            },
        };
        let sendable = SendableMessage {
            src: self.address.clone(),
            dst: ldr_address,
            message: Message::P1b(msg),
        };
        self.mailbox.send(sendable);
        Ok(())
    }

    /// Sends a P2b acceptance to `leader`; fails with `ConfigLookupMiss`
    /// when no address is registered for it.
    pub fn send_p2b(&mut self, leader: LeaderId, ballot: BallotNumber, slot: u64) -> (r: Result<
        (),
        PaxosError,
    >)
        requires
            old(self).config.id_address_map.uniq(),
        ensures
            final(self).node_id == old(self).node_id,
            final(self).address == old(self).address,
            final(self).config == old(self).config,
            final(self).clock == old(self).clock,
            final(self).promised == old(self).promised,
            final(self).accepted == old(self).accepted,
            final(self).mailbox.inbox == old(self).mailbox.inbox,
            if old(self).config.id_address_map@.dom().contains(leader.0) {
                &&& r is Ok
                &&& final(self).mailbox.outbox@ == old(self).mailbox.outbox@.push(
                    SendableMessage {
                        src: old(self).address,
                        dst: old(self).config.id_address_map@[leader.0],
                        message: Message::P2b(
                            P2bMessage {
                                src: old(self).node_id,
                                ballot_number: ballot,
                                slot_number: slot,
                            },
                        ),
                    },
                )
            } else {
                &&& r == Err::<(), PaxosError>(PaxosError::ConfigLookupMiss)
                &&& final(self).mailbox.outbox == old(self).mailbox.outbox
            },
    {
        let msg = P2bMessage { src: self.node_id, ballot_number: ballot, slot_number: slot };
        let ldr_address = match self.config.get_address(leader.as_ref()) {
            Some(a) => a.clone(),
            None => {
                return Err(PaxosError::ConfigLookupMiss);
            },
        };
        let sendable = SendableMessage {
            src: self.address.clone(),
            dst: ldr_address,
            message: Message::P2b(msg),
        };
        self.mailbox.send(sendable);
        Ok(())
    }

    /// Everything one [`Acceptor::handle_timer`] call does, stated between
    /// a pre state and a post state.
    pub open spec fn timer_effect(pre: Self, post: Self, action: ClockAction) -> bool {
        &&& post.node_id == pre.node_id
        &&& post.address == pre.address
        &&& post.config == pre.config
        &&& post.mailbox == pre.mailbox
        &&& post.promised == pre.promised
        &&& post.accepted == pre.accepted
        &&& if action is AcceptorHeartbeat {
            post.clock.timer_seq().len() == pre.clock.timer_seq().len() + 1 && exists|idx: int|
                {
                    &&& 0 <= idx < post.clock.timer_seq().len()
                    &&& (#[trigger] post.clock.timer_seq()[idx]).action
                        == ClockAction::AcceptorHeartbeat
                    &&& pre.clock.time_known() ==> post.clock.timer_seq()[idx].when
                        == add_sat_spec(
                        pre.clock.current(),
                        pre.config.timeout_config.max_timeout,
                    )
                }
        } else {
            post == pre
        }
    }

    /// The timer effect depends only on the action's content.
    proof fn lemma_timer_effect_eq(pre: Self, post: Self, a: ClockAction, b: ClockAction)
        requires
            Self::timer_effect(pre, post, a),
            crate::nodes::clock::act_eq_spec(a, b),
        ensures
            Self::timer_effect(pre, post, b),
    {
    }

    /// `actions` were handled one after the other, each as
    /// [`Acceptor::handle_timer`] says.
    pub open spec fn timers_handled(pre: Self, post: Self, actions: Seq<ClockAction>) -> bool
        decreases actions.len(),
    {
        if actions.len() == 0 {
            post == pre
        } else {
            exists|mid: Acceptor<C>|
                #[trigger] Self::timer_effect(pre, mid, actions[0]) && Self::timers_handled(
                    mid,
                    post,
                    actions.drop_first(),
                )
        }
    }

    /// A handled chain extends by one more handled action.
    proof fn lemma_timers_handled_snoc(
        pre: Self,
        mid: Self,
        post: Self,
        actions: Seq<ClockAction>,
        a: ClockAction,
    )
        requires
            Self::timers_handled(pre, mid, actions),
            Self::timer_effect(mid, post, a),
        ensures
            Self::timers_handled(pre, post, actions.push(a)),
        decreases actions.len(),
    {
        let whole = actions.push(a);
        if actions.len() == 0 {
            assert(pre == mid);
            assert(whole[0] == a);
            assert(whole.drop_first() =~= Seq::<ClockAction>::empty());
            assert(Self::timers_handled(post, post, whole.drop_first()));
            assert(Self::timer_effect(pre, post, whole[0]) && Self::timers_handled(
                post,
                post,
                whole.drop_first(),
            ));
        } else {
            let m1 = choose|m1: Acceptor<C>|
                #[trigger] Self::timer_effect(pre, m1, actions[0]) && Self::timers_handled(
                    m1,
                    mid,
                    actions.drop_first(),
                );
            Self::lemma_timers_handled_snoc(m1, mid, post, actions.drop_first(), a);
            assert(whole.drop_first() =~= actions.drop_first().push(a));
            assert(whole[0] == actions[0]);
            assert(Self::timer_effect(pre, m1, whole[0]) && Self::timers_handled(
                m1,
                post,
                whole.drop_first(),
            ));
        }
    }

    /// Reacts to a timer action: the acceptor's heartbeat triggers the
    /// periodic maintenance; any other action is ignored.
    pub fn handle_timer(&mut self, action: ClockAction) -> (r: Result<(), PaxosError>)
        requires
            old(self).wf(),
        ensures
            final(self).wf(),
            r is Ok,
            final(self).node_id == old(self).node_id,
            final(self).address == old(self).address,
            final(self).config == old(self).config,
            final(self).mailbox == old(self).mailbox,
            final(self).promised == old(self).promised,
            final(self).accepted == old(self).accepted,
            !(action is AcceptorHeartbeat) ==> *final(self) == *old(self),
action is AcceptorHeartbeat ==> final(self).clock.timer_seq().len() == old(self).clock.timer_seq().len() + 1
                && exists|idx: int|
                {
                    &&& 0 <= idx < final(self).clock.timer_seq().len()
                    &&& (#[trigger] final(self).clock.timer_seq()[idx]).action
                        == ClockAction::AcceptorHeartbeat
                    &&& old(self).clock.time_known() ==> final(self).clock.timer_seq()[idx].when
                        == add_sat_spec(
                        old(self).clock.current(),
                        old(self).config.timeout_config.max_timeout,
                    )
                },
    {
        match action {
            ClockAction::AcceptorHeartbeat => self.cleanup_old_state(),
            _ => Ok(()),
        }
    }

    /// Periodic maintenance.  State for quiescent slots could be compacted
    /// here, as long as no promise or accepted ballot for a reachable slot
    /// ever decreases; for now it only re-arms the heartbeat.
    fn cleanup_old_state(&mut self) -> (r: Result<(), PaxosError>)
        requires
            old(self).wf(),
        ensures
            final(self).wf(),
            r is Ok,
            final(self).node_id == old(self).node_id,
            final(self).address == old(self).address,
            final(self).config == old(self).config,
            final(self).mailbox == old(self).mailbox,
            final(self).promised == old(self).promised,
            final(self).accepted == old(self).accepted,
            final(self).clock.timer_seq().len() == old(self).clock.timer_seq().len() + 1
                && exists|idx: int|
                {
                    &&& 0 <= idx < final(self).clock.timer_seq().len()
                    &&& (#[trigger] final(self).clock.timer_seq()[idx]).action
                        == ClockAction::AcceptorHeartbeat
                    &&& old(self).clock.time_known() ==> final(self).clock.timer_seq()[idx].when
                        == add_sat_spec(
                        old(self).clock.current(),
                        old(self).config.timeout_config.max_timeout,
                    )
                },
    {
        self.schedule_heartbeat()
    }

    /// Schedules the next heartbeat, one maximum timeout from now.
    fn schedule_heartbeat(&mut self) -> (r: Result<(), PaxosError>)
        requires
            old(self).wf(),
        ensures
            final(self).wf(),
            r is Ok,
            final(self).node_id == old(self).node_id,
            final(self).address == old(self).address,
            final(self).config == old(self).config,
            final(self).mailbox == old(self).mailbox,
            final(self).promised == old(self).promised,
            final(self).accepted == old(self).accepted,
            final(self).clock.timer_seq().len() == old(self).clock.timer_seq().len() + 1
                && exists|idx: int|
                {
                    &&& 0 <= idx < final(self).clock.timer_seq().len()
                    &&& (#[trigger] final(self).clock.timer_seq()[idx]).action
                        == ClockAction::AcceptorHeartbeat
                    &&& old(self).clock.time_known() ==> final(self).clock.timer_seq()[idx].when
                        == add_sat_spec(
                        old(self).clock.current(),
                        old(self).config.timeout_config.max_timeout,
                    )
                },
    {
        let timeout = self.config.timeout_config.max_timeout;
        self.clock.schedule(ClockAction::AcceptorHeartbeat, timeout);
        proof {
            let (idx, w): (int, u64) = choose|idx: int, w: u64|
                {
                    &&& 0 <= idx <= old(self).clock.timer_seq().len()
                    &&& self.clock.timer_seq() == old(self).clock.timer_seq().insert(
                        idx,
                        TimerEvent { when: w, action: ClockAction::AcceptorHeartbeat },
                    )
                    &&& old(self).clock.time_known() ==> w == add_sat_spec(
                        old(self).clock.current(),
                        timeout,
                    )
                };
            assert(self.clock.timer_seq()[idx] == (TimerEvent {
                when: w,
                action: ClockAction::AcceptorHeartbeat,
            }));
        }
        Ok(())
    }

    /// Arms the role's recurring timers; called once after construction.
    pub fn start_periodic_checks(&mut self) -> (r: Result<(), PaxosError>)
        requires
            old(self).wf(),
        ensures
            final(self).wf(),
            r is Ok,
            final(self).node_id == old(self).node_id,
            final(self).address == old(self).address,
            final(self).config == old(self).config,
            final(self).mailbox == old(self).mailbox,
            final(self).promised == old(self).promised,
            final(self).accepted == old(self).accepted,
            final(self).clock.timer_seq().len() == old(self).clock.timer_seq().len() + 1
                && exists|idx: int|
                {
                    &&& 0 <= idx < final(self).clock.timer_seq().len()
                    &&& (#[trigger] final(self).clock.timer_seq()[idx]).action
                        == ClockAction::AcceptorHeartbeat
                    &&& old(self).clock.time_known() ==> final(self).clock.timer_seq()[idx].when
                        == add_sat_spec(
                        old(self).clock.current(),
                        old(self).config.timeout_config.max_timeout,
                    )
                },
    {
        self.schedule_heartbeat()
    }

    /// Fires the due timers: collects them from the clock and handles each
    /// in order.  Returns the actions that fired.
    pub fn check_timers(&mut self) -> (r: Result<Vec<ClockAction>, PaxosError>)
        requires
            old(self).wf(),
        ensures
            final(self).wf(),
            r is Ok,
            final(self).node_id == old(self).node_id,
            final(self).address == old(self).address,
            final(self).config == old(self).config,
            final(self).mailbox == old(self).mailbox,
            final(self).promised == old(self).promised,
            final(self).accepted == old(self).accepted,
            match r {
                Ok(actions) => {
                    &&& actions@.len() <= old(self).clock.timer_seq().len()
                    &&& forall|j: int|
                        0 <= j < actions@.len() ==> actions@[j] == old(self).clock.timer_seq()[
                            j
                        ].action
                    &&& old(self).clock.time_known() ==> (forall|j: int|
                        0 <= j < actions@.len() ==> old(self).clock.timer_seq()[j].when <= old(self).clock.current()) && (forall|j: int|
                        actions@.len() <= j < old(self).clock.timer_seq().len() ==> old(self).clock.timer_seq()[j].when > old(self).clock.current())
                    &&& exists|start: Acceptor<C>|
                        {
                            &&& start.node_id == old(self).node_id
                            &&& start.address == old(self).address
                            &&& start.config == old(self).config
                            &&& start.mailbox == old(self).mailbox
                            &&& start.promised == old(self).promised
                            &&& start.accepted == old(self).accepted
                            &&& start.clock.timer_seq() == old(self).clock.timer_seq().skip(
                                actions@.len() as int,
                            )
                            &&& #[trigger] Self::timers_handled(start, *final(self), actions@)
                        }
                },
                Err(_) => false,
            },
    {
        let expired = self.clock.check_timers();
        let ghost start0 = *self;
        let mut i: usize = 0;
        while i < expired.len()
            invariant
                self.wf(),
                self.node_id == old(self).node_id,
                self.address == old(self).address,
                self.config == old(self).config,
                self.mailbox == old(self).mailbox,
                self.promised == old(self).promised,
                self.accepted == old(self).accepted,
                i <= expired@.len(),
                Self::timers_handled(start0, *self, expired@.take(i as int)),
            decreases expired@.len() - i,
        {
            let ghost prev = *self;
            let action = expired[i].clone();
            let ghost ga = action;
            match self.handle_timer(action) {
                Ok(_) => (),
                Err(_) => (),
            }
            proof {
                assert(Self::timer_effect(prev, *self, ga));
                Self::lemma_timer_effect_eq(prev, *self, ga, expired@[i as int]);
                Self::lemma_timers_handled_snoc(
                    start0,
                    prev,
                    *self,
                    expired@.take(i as int),
                    expired@[i as int],
                );
                assert(expired@.take(i + 1 as int) =~= expired@.take(i as int).push(
                    expired@[i as int],
                ));
            }
            i = i + 1;
        }
        proof {
            assert(expired@.take(expired@.len() as int) =~= expired@);
            assert(Self::timers_handled(start0, *self, expired@));
        }
        Ok(expired)
    }

    /// Empties the outbox; stands in for a transport picking everything up.
    pub fn drain_outbox(&mut self)
        ensures
            final(self).mailbox.outbox@ == Seq::<SendableMessage>::empty(),
            final(self).mailbox.inbox == old(self).mailbox.inbox,
            final(self).promised == old(self).promised,
            final(self).accepted == old(self).accepted,
            final(self).config == old(self).config,
            final(self).clock == old(self).clock,
            final(self).node_id == old(self).node_id,
            final(self).address == old(self).address,
            old(self).wf() ==> final(self).wf(),
    {
        self.mailbox.clear_outbox();
    }
}

} // verus!
