//! Timers for the actors.  A clock provider keeps a queue of scheduled
//! actions ordered by their due time, in whole milliseconds.  The virtual
//! provider owns its notion of now and is advanced explicitly, so tests can
//! drive it deterministically; the wall-clock provider reads the machine's
//! monotonic clock.  The protocol code never consults an ambient time
//! source: each actor is handed the provider it runs on.

use crate::messages;
use crate::types::BallotNumber;
use vstd::prelude::*;

verus! {

/// Actions that can be scheduled for later execution.
#[derive(Debug)]
pub enum ClockAction {
    /// Leader: retry phase 1 for the carried ballot.
    SendScout { ballot: BallotNumber },
    /// Leader: re-send the phase-2 proposal for a slot.
    RetryProposal { slot: u64 },
    /// Leader: periodic liveness indicator.
    LeaderHeartbeat,
    /// Replica: re-send proposals that got no decision yet.
    ReproposePendingRequests,
    /// Replica: periodic check that `slot_out` advances.
    CheckSlotWindow,
    /// Acceptor: periodic maintenance.
    AcceptorHeartbeat,
    /// An action identified by a tag string.
    Custom(String),
}

/// Content equality of actions: same variant and equal payload.
pub open spec fn act_eq_spec(a: ClockAction, b: ClockAction) -> bool {
    match (a, b) {
        (ClockAction::SendScout { ballot: x }, ClockAction::SendScout { ballot: y }) => x == y,
        (ClockAction::RetryProposal { slot: x }, ClockAction::RetryProposal { slot: y }) => x == y,
        (ClockAction::LeaderHeartbeat, ClockAction::LeaderHeartbeat) => true,
        (ClockAction::ReproposePendingRequests, ClockAction::ReproposePendingRequests) => true,
        (ClockAction::CheckSlotWindow, ClockAction::CheckSlotWindow) => true,
        (ClockAction::AcceptorHeartbeat, ClockAction::AcceptorHeartbeat) => true,
        (ClockAction::Custom(s), ClockAction::Custom(t)) => s@ == t@,
        _ => false,
    }
}

/// Matching for cancellation: payload fields are ignored, except the tag of
/// a custom action, which must agree exactly.
pub open spec fn actions_match_spec(a: ClockAction, b: ClockAction) -> bool {
    match (a, b) {
        (ClockAction::SendScout { .. }, ClockAction::SendScout { .. }) => true,
        (ClockAction::RetryProposal { .. }, ClockAction::RetryProposal { .. }) => true,
        (ClockAction::LeaderHeartbeat, ClockAction::LeaderHeartbeat) => true,
        (ClockAction::ReproposePendingRequests, ClockAction::ReproposePendingRequests) => true,
        (ClockAction::CheckSlotWindow, ClockAction::CheckSlotWindow) => true,
        (ClockAction::AcceptorHeartbeat, ClockAction::AcceptorHeartbeat) => true,
        (ClockAction::Custom(s), ClockAction::Custom(t)) => s@ == t@,
        _ => false,
    }
}

/// Decides [`actions_match_spec`] at run time.
pub fn actions_match(a: &ClockAction, b: &ClockAction) -> (r: bool)
    ensures
        r == actions_match_spec(*a, *b),
{
    match (a, b) {
        (ClockAction::SendScout { .. }, ClockAction::SendScout { .. }) => true,
        (ClockAction::RetryProposal { .. }, ClockAction::RetryProposal { .. }) => true,
        (ClockAction::LeaderHeartbeat, ClockAction::LeaderHeartbeat) => true,
        (ClockAction::ReproposePendingRequests, ClockAction::ReproposePendingRequests) => true,
        (ClockAction::CheckSlotWindow, ClockAction::CheckSlotWindow) => true,
        (ClockAction::AcceptorHeartbeat, ClockAction::AcceptorHeartbeat) => true,
        (ClockAction::Custom(s), ClockAction::Custom(t)) => *s == *t,
        _ => false,
    }
}

impl Clone for ClockAction {
    fn clone(&self) -> (r: Self)
        ensures
            act_eq_spec(r, *self),
    {
        match self {
            ClockAction::SendScout { ballot } => ClockAction::SendScout { ballot: *ballot },
            ClockAction::RetryProposal { slot } => ClockAction::RetryProposal { slot: *slot },
            ClockAction::LeaderHeartbeat => ClockAction::LeaderHeartbeat,
            ClockAction::ReproposePendingRequests => ClockAction::ReproposePendingRequests,
            ClockAction::CheckSlotWindow => ClockAction::CheckSlotWindow,
            ClockAction::AcceptorHeartbeat => ClockAction::AcceptorHeartbeat,
            ClockAction::Custom(s) => ClockAction::Custom(s.clone()),
        }
    }
}

/// A scheduled action and the time it is due, in milliseconds.
#[derive(Debug)]
pub struct TimerEvent {
    pub when: u64,
    pub action: ClockAction,
}

/// Content equality of timer events.
pub open spec fn te_eq_spec(a: TimerEvent, b: TimerEvent) -> bool {
    a.when == b.when && act_eq_spec(a.action, b.action)
}

impl Clone for TimerEvent {
    fn clone(&self) -> (r: Self)
        ensures
            te_eq_spec(r, *self),
    {
        TimerEvent { when: self.when, action: self.action.clone() }
    }
}

/// Events a node can be driven by.
#[derive(Debug)]
pub enum ClockEvent {
    Message(Box<messages::SendableMessage>),
    Timer(ClockAction),
    /// A regular check for timeouts.
    Tick,
}

/// The events that survive a cancellation with prototype `proto`.
pub open spec fn not_matching(proto: ClockAction) -> spec_fn(TimerEvent) -> bool {
    |e: TimerEvent| !actions_match_spec(e.action, proto)
}

/// The queue is ordered by due time, earliest first.
pub open spec fn sorted_by_when(s: Seq<TimerEvent>) -> bool {
    forall|i: int, j: int| 0 <= i < j < s.len() ==> s[i].when <= s[j].when
}

/// `a + b`, stopping at the largest representable value.
pub open spec fn add_sat_spec(a: u64, b: u64) -> u64 {
    if a + b > u64::MAX {
        u64::MAX
    } else {
        (a + b) as u64
    }
}

fn add_sat(a: u64, b: u64) -> (r: u64)
    ensures
        r == add_sat_spec(a, b),
{
    if b > u64::MAX - a {
        u64::MAX
    } else {
        a + b
    }
}

/// Every element of a filtered sequence occurs in the original.
proof fn lemma_filter_is_subset<A>(s: Seq<A>, p: spec_fn(A) -> bool)
    ensures
        forall|i: int|
            0 <= i < s.filter(p).len() ==> s.contains(#[trigger] s.filter(p)[i]),
    decreases s.len(),
{
    reveal(Seq::filter);
    if s.len() > 0 {
        lemma_filter_is_subset(s.drop_last(), p);
        assert forall|i: int| 0 <= i < s.filter(p).len() implies s.contains(
            #[trigger] s.filter(p)[i],
        ) by {
            if i < s.drop_last().filter(p).len() {
                let e = s.drop_last().filter(p)[i];
                let j = choose|j: int|
                    0 <= j < s.drop_last().len() && s.drop_last()[j] == e;
                assert(s[j] == e);
            } else {
                assert(s.filter(p)[i] == s.last());
                assert(s[s.len() - 1] == s.last());
            }
        }
    }
}

/// Filtering keeps the order, so a sorted queue stays sorted.
proof fn lemma_filter_keeps_sorted(s: Seq<TimerEvent>, p: spec_fn(TimerEvent) -> bool)
    requires
        sorted_by_when(s),
    ensures
        sorted_by_when(s.filter(p)),
    decreases s.len(),
{
    reveal(Seq::filter);
    if s.len() > 0 {
        assert(sorted_by_when(s.drop_last()));
        lemma_filter_keeps_sorted(s.drop_last(), p);
        if p(s.last()) {
            lemma_filter_is_subset(s.drop_last(), p);
            assert forall|i: int, j: int|
                0 <= i < j < s.filter(p).len() implies s.filter(p)[i].when
                <= s.filter(p)[j].when by {
                if j == s.filter(p).len() - 1 {
                    let e = s.drop_last().filter(p)[i];
                    let m = choose|m: int|
                        0 <= m < s.drop_last().len() && s.drop_last()[m] == e;
                    assert(s[m] == e);
                    assert(s[m].when <= s[s.len() - 1].when);
                }
            }
        }
    }
}

/// Inserts `e` behind every event due no later than it, keeping the queue
/// sorted and the order of equal due times stable.  Returns the position
/// the event was inserted at.
fn queue_insert(v: &mut Vec<TimerEvent>, e: TimerEvent) -> (pos: usize)
    requires
        sorted_by_when(old(v)@),
    ensures
        sorted_by_when(final(v)@),
        pos <= old(v)@.len(),
        final(v)@ == old(v)@.insert(pos as int, e),
        forall|j: int| 0 <= j < pos ==> old(v)@[j].when <= e.when,
        forall|j: int| pos <= j < old(v)@.len() ==> old(v)@[j].when > e.when,
{
    let mut idx: usize = 0;
    while idx < v.len() && v[idx].when <= e.when
        invariant
            idx <= v@.len(),
            forall|j: int| 0 <= j < idx ==> v@[j].when <= e.when,
            sorted_by_when(v@),
        decreases v@.len() - idx,
    {
        idx = idx + 1;
    }
    proof {
        assert forall|j: int| idx <= j < v@.len() implies v@[j].when > e.when by {
            assert(v@[idx as int].when <= v@[j].when);
        }
    }
    let ghost pos = idx as int;
    v.insert(idx, e);
    proof {
        assert forall|a: int, b: int| 0 <= a < b < v@.len() implies v@[a].when <= v@[b].when by {
            if a < pos && b == pos {
            } else if a == pos && b > pos {
            }
        }
    }
    idx
}

/// Removes every event whose action matches the prototype's variant.
fn queue_cancel(v: &mut Vec<TimerEvent>, action_type: &ClockAction)
    requires
        sorted_by_when(old(v)@),
    ensures
        sorted_by_when(final(v)@),
        final(v)@ == old(v)@.filter(not_matching(*action_type)),
{
    let ghost p = not_matching(*action_type);
    let ghost orig = old(v)@;
    let mut i: usize = 0;
    let ghost mut j: int = 0;
    while i < v.len()
        invariant
            0 <= i as int <= v@.len(),
            0 <= j <= orig.len(),
            v@.take(i as int) == orig.take(j).filter(p),
            v@.skip(i as int) == orig.skip(j),
            p == not_matching(*action_type),
            sorted_by_when(orig),
        decreases orig.len() - j,
    {
        proof {
            assert(v@.skip(i as int).len() == v@.len() - i);
            assert(orig.skip(j).len() == orig.len() - j);
            assert(j < orig.len());
            assert(v@[i as int] == orig.skip(j)[0]);
            assert(v@[i as int] == orig[j]);
        }
        let keep = !actions_match(&v[i].action, action_type);
        proof {
            reveal(Seq::filter);
            assert(orig.take(j + 1).drop_last() =~= orig.take(j));
            assert(orig.take(j + 1).last() == orig[j]);
            assert(p(orig[j]) == !actions_match_spec(orig[j].action, *action_type));
        }
        if keep {
            proof {
                assert(p(orig[j]));
                reveal(Seq::filter);
                assert(orig.take(j + 1).filter(p) == orig.take(j).filter(p).push(orig[j]));
                assert(v@.take(i + 1 as int) =~= v@.take(i as int).push(v@[i as int]));
                assert(v@.skip(i + 1 as int) =~= v@.skip(i as int).drop_first());
                assert(orig.skip(j).drop_first() =~= orig.skip(j + 1));
            }
            i = i + 1;
        } else {
            proof {
                assert(!p(orig[j]));
                reveal(Seq::filter);
                assert(orig.take(j + 1).filter(p) == orig.take(j).filter(p));
                assert(v@.remove(i as int).take(i as int) =~= v@.take(i as int));
                assert(v@.remove(i as int).skip(i as int) =~= v@.skip(i as int).drop_first());
                assert(orig.skip(j).drop_first() =~= orig.skip(j + 1));
            }
            let _ = v.remove(i);
        }
        proof {
            j = j + 1;
        }
    }
    proof {
        assert(v@.skip(i as int).len() == v@.len() - i);
        assert(orig.skip(j).len() == orig.len() - j);
        assert(j == orig.len());
        assert(orig.take(j) =~= orig);
        assert(v@.take(i as int) =~= v@);
        lemma_filter_keeps_sorted(orig, p);
    }
}

/// Removes and returns, earliest first, every action due at or before `now`.
fn queue_pop_expired(v: &mut Vec<TimerEvent>, now: u64) -> (r: Vec<ClockAction>)
    requires
        sorted_by_when(old(v)@),
    ensures
        sorted_by_when(final(v)@),
        r@.len() <= old(v)@.len(),
        final(v)@ == old(v)@.skip(r@.len() as int),
        forall|j: int| 0 <= j < r@.len() ==> r@[j] == old(v)@[j].action,
        forall|j: int| 0 <= j < r@.len() ==> old(v)@[j].when <= now,
        forall|j: int| r@.len() <= j < old(v)@.len() ==> old(v)@[j].when > now,
{
    let ghost orig = v@;
    let mut out: Vec<ClockAction> = Vec::new();
    let mut k: usize = 0;
    while v.len() > 0 && v[0].when <= now
        invariant
            sorted_by_when(orig),
            k <= orig.len(),
            out@.len() == k,
            v@ == orig.skip(k as int),
            forall|j: int| 0 <= j < k ==> out@[j] == orig[j].action,
            forall|j: int| 0 <= j < k ==> orig[j].when <= now,
        decreases v@.len(),
    {
        proof {
            assert(v@.len() == orig.len() - k);
            assert(k < orig.len());
            assert(v@[0] == orig.skip(k as int)[0]);
        }
        let e = v.remove(0);
        out.push(e.action);
        proof {
            assert(orig.skip(k as int).remove(0) =~= orig.skip(k + 1 as int));
            assert(e == orig[k as int]);
        }
        k = out.len();
    }
    proof {
        assert forall|j: int| k <= j < orig.len() implies orig[j].when > now by {
            if v@.len() > 0 {
                assert(v@[0] == orig.skip(k as int)[0]);
                assert(orig[k as int].when > now);
                assert(orig[k as int].when <= orig[j].when);
            }
        }
        assert(sorted_by_when(v@));
    }
    out
}

/// Time until the earliest event is due: zero if already due, nothing if the
/// queue is empty.
fn queue_next_timeout(v: &Vec<TimerEvent>, now: u64) -> (r: Option<u64>)
    ensures
        match r {
            Some(d) => v@.len() > 0 && d == if v@[0].when > now {
                (v@[0].when - now) as u64
            } else {
                0
            },
            None => v@.len() == 0,
        },
{
    if v.len() == 0 {
        None
    } else {
        let when = v[0].when;
        if when > now {
            Some(when - now)
        } else {
            Some(0)
        }
    }
}

/// A source of time and timers.  Implementations keep their pending events
/// sorted earliest-first; `time_known` says whether the provider's current
/// time is part of its state, as it is for the virtual provider.
pub trait ClockProvider: Sized {
    /// The pending timer events, earliest first.
    spec fn timer_seq(&self) -> Seq<TimerEvent>;

    /// Whether `current` describes this provider.
    spec fn time_known(&self) -> bool;

    /// The provider's current time in milliseconds, where known.
    spec fn current(&self) -> u64;

    /// The provider's internal order is intact.
    spec fn wf(&self) -> bool;

    /// The current time.
    fn now(&self) -> (t: u64)
        ensures
            self.time_known() ==> t == self.current(),
    ;

    /// Schedules `action` to occur `delay` milliseconds from now.
    fn schedule(&mut self, action: ClockAction, delay: u64)
        requires
            old(self).wf(),
        ensures
            final(self).wf(),
            final(self).time_known() == old(self).time_known(),
            final(self).time_known() ==> final(self).current() == old(self).current(),
            exists|i: int, w: u64|
                {
                    &&& 0 <= i <= old(self).timer_seq().len()
                    &&& final(self).timer_seq() == old(self).timer_seq().insert(
                        i,
                        TimerEvent { when: w, action },
                    )
                    &&& old(self).time_known() ==> w == add_sat_spec(old(self).current(), delay)
                },
    ;

    /// Schedules `action` to occur at the absolute time `when`.
    fn schedule_at(&mut self, action: ClockAction, when: u64)
        requires
            old(self).wf(),
        ensures
            final(self).wf(),
            final(self).time_known() == old(self).time_known(),
            final(self).time_known() ==> final(self).current() == old(self).current(),
            exists|i: int|
                {
                    &&& 0 <= i <= old(self).timer_seq().len()
                    &&& final(self).timer_seq() == old(self).timer_seq().insert(
                        i,
                        TimerEvent { when, action },
                    )
                },
    ;

    /// Cancels every pending action matching the prototype's variant.
    fn cancel(&mut self, action_type: &ClockAction)
        requires
            old(self).wf(),
        ensures
            final(self).wf(),
            final(self).time_known() == old(self).time_known(),
            final(self).time_known() ==> final(self).current() == old(self).current(),
            final(self).timer_seq() == old(self).timer_seq().filter(
                not_matching(*action_type),
            ),
    ;

    /// Time until the earliest pending event, zero if it is already due,
    /// nothing if no event is pending.
    fn next_timeout(&self) -> (r: Option<u64>)
        requires
            self.wf(),
        ensures
            r is Some <==> self.timer_seq().len() > 0,
            self.time_known() && self.timer_seq().len() > 0 ==> r == Some(
                if self.timer_seq()[0].when > self.current() {
                    (self.timer_seq()[0].when - self.current()) as u64
                } else {
                    0
                },
            ),
    ;

    /// Removes and returns, earliest first, every action that is due.
    fn check_timers(&mut self) -> (r: Vec<ClockAction>)
        requires
            old(self).wf(),
        ensures
            final(self).wf(),
            final(self).time_known() == old(self).time_known(),
            final(self).time_known() ==> final(self).current() == old(self).current(),
            r@.len() <= old(self).timer_seq().len(),
            final(self).timer_seq() == old(self).timer_seq().skip(r@.len() as int),
            forall|j: int| 0 <= j < r@.len() ==> r@[j] == old(self).timer_seq()[j].action,
            old(self).time_known() ==> (forall|j: int|
                0 <= j < r@.len() ==> old(self).timer_seq()[j].when <= old(self).current())
                && (forall|j: int|
                r@.len() <= j < old(self).timer_seq().len() ==> old(self).timer_seq()[j].when
                    > old(self).current()),
    ;
}

/// A clock handle over some provider; actors can be built directly on a
/// provider or on this wrapper.
pub struct Clock<P: ClockProvider> {
    pub provider: P,
}

impl<P: ClockProvider> Clock<P> {
    pub open spec fn wf(&self) -> bool {
        self.provider.wf()
    }

    pub open spec fn timer_seq(&self) -> Seq<TimerEvent> {
        self.provider.timer_seq()
    }

    pub fn new(provider: P) -> (r: Self)
        ensures
            r.provider == provider,
    {
        Clock { provider }
    }

    pub fn now(&self) -> (t: u64)
        ensures
            self.provider.time_known() ==> t == self.provider.current(),
    {
        self.provider.now()
    }

    pub fn schedule(&mut self, action: ClockAction, delay: u64)
        requires
            old(self).wf(),
        ensures
            final(self).wf(),
            exists|i: int, w: u64|
                {
                    &&& 0 <= i <= old(self).timer_seq().len()
                    &&& final(self).timer_seq() == old(self).timer_seq().insert(
                        i,
                        TimerEvent { when: w, action },
                    )
                },
    {
        self.provider.schedule(action, delay);
        proof {
            let (i, w): (int, u64) = choose|i: int, w: u64|
                {
                    &&& 0 <= i <= old(self).provider.timer_seq().len()
                    &&& self.provider.timer_seq() == old(self).provider.timer_seq().insert(
                        i,
                        TimerEvent { when: w, action },
                    )
                    &&& old(self).provider.time_known() ==> w == add_sat_spec(
                        old(self).provider.current(),
                        delay,
                    )
                };
            assert(self.timer_seq() == old(self).timer_seq().insert(
                i,
                TimerEvent { when: w, action },
            ));
        }
    }

    pub fn schedule_at(&mut self, action: ClockAction, when: u64)
        requires
            old(self).wf(),
        ensures
            final(self).wf(),
            exists|i: int|
                {
                    &&& 0 <= i <= old(self).timer_seq().len()
                    &&& final(self).timer_seq() == old(self).timer_seq().insert(
                        i,
                        TimerEvent { when, action },
                    )
                },
    {
        self.provider.schedule_at(action, when);
        proof {
            let i: int = choose|i: int|
                {
                    &&& 0 <= i <= old(self).provider.timer_seq().len()
                    &&& self.provider.timer_seq() == old(self).provider.timer_seq().insert(
                        i,
                        TimerEvent { when, action },
                    )
                };
            assert(self.timer_seq() == old(self).timer_seq().insert(
                i,
                TimerEvent { when, action },
            ));
        }
    }

    pub fn cancel(&mut self, action_type: &ClockAction)
        requires
            old(self).wf(),
        ensures
            final(self).wf(),
            final(self).timer_seq() == old(self).timer_seq().filter(
                not_matching(*action_type),
            ),
    {
        self.provider.cancel(action_type);
    }

    pub fn next_timeout(&self) -> (r: Option<u64>)
        requires
            self.wf(),
        ensures
            r is Some <==> self.timer_seq().len() > 0,
            self.provider.time_known() && self.timer_seq().len() > 0 ==> r == Some(
                if self.timer_seq()[0].when > self.provider.current() {
                    (self.timer_seq()[0].when - self.provider.current()) as u64
                } else {
                    0
                },
            ),
    {
        self.provider.next_timeout()
    }

    pub fn check_timers(&mut self) -> (r: Vec<ClockAction>)
        requires
            old(self).wf(),
        ensures
            final(self).wf(),
            r@.len() <= old(self).timer_seq().len(),
            final(self).timer_seq() == old(self).timer_seq().skip(r@.len() as int),
            forall|j: int| 0 <= j < r@.len() ==> r@[j] == old(self).timer_seq()[j].action,
            old(self).provider.time_known() ==> (forall|j: int|
                0 <= j < r@.len() ==> old(self).timer_seq()[j].when <= old(self).provider.current()) && (forall|j: int|
                r@.len() <= j < old(self).timer_seq().len() ==> old(self).timer_seq()[j].when
                    > old(self).provider.current()),
    {
        self.provider.check_timers()
    }
}

#[verifier::external_type_specification]
#[verifier::external_body]
pub struct ExInstant(std::time::Instant);

/// Relies on std::time::Instant::now: an opaque monotonic timestamp of the
/// machine.  Nothing is promised of its value.
#[verifier::external_body]
fn instant_now() -> std::time::Instant {
    std::time::Instant::now()
}

/// Relies on std::time::Instant::elapsed: the whole milliseconds since
/// `origin`, here clamped into u64.  The value depends on the machine, so
/// nothing is promised of it.
#[verifier::external_body]
fn elapsed_millis(origin: &std::time::Instant) -> u64 {
    let ms = origin.elapsed().as_millis();
    if ms > u64::MAX as u128 {
        u64::MAX
    } else {
        ms as u64
    }
}

/// The wall-clock provider: time is read from the machine's monotonic clock,
/// counted in milliseconds since this provider was created.
#[derive(Debug)]
pub struct SystemClock {
    origin: std::time::Instant,
    timers: Vec<TimerEvent>,
}

impl SystemClock {
    pub fn new() -> (r: Self)
        ensures
            r.wf(),
            r.timer_seq() == Seq::<TimerEvent>::empty(),
    {
        SystemClock { origin: instant_now(), timers: Vec::new() }
    }

    /// Whether two actions are the same for cancellation purposes.
    pub fn actions_match(action1: &ClockAction, action2: &ClockAction) -> (r: bool)
        ensures
            r == actions_match_spec(*action1, *action2),
    {
        actions_match(action1, action2)
    }
}

impl Default for SystemClock {
    fn default() -> (r: Self)
        ensures
            r.wf(),
            r.timer_seq() == Seq::<TimerEvent>::empty(),
    {
        SystemClock::new()
    }
}

impl ClockProvider for SystemClock {
    closed spec fn timer_seq(&self) -> Seq<TimerEvent> {
        self.timers@
    }

    closed spec fn time_known(&self) -> bool {
        false
    }

    closed spec fn current(&self) -> u64 {
        0
    }

    closed spec fn wf(&self) -> bool {
        sorted_by_when(self.timers@)
    }

    fn now(&self) -> (t: u64) {
        elapsed_millis(&self.origin)
    }

    fn schedule(&mut self, action: ClockAction, delay: u64) {
        let when = add_sat(self.now(), delay);
        self.schedule_at(action, when);
    }

    fn schedule_at(&mut self, action: ClockAction, when: u64) {
        let ghost ev = TimerEvent { when, action };
        let pos = queue_insert(&mut self.timers, TimerEvent { when, action });
        proof {
            assert(self.timer_seq() == old(self).timer_seq().insert(pos as int, ev));
        }
    }

    fn cancel(&mut self, action_type: &ClockAction) {
        queue_cancel(&mut self.timers, action_type);
    }

    fn next_timeout(&self) -> (r: Option<u64>) {
        queue_next_timeout(&self.timers, self.now())
    }

    fn check_timers(&mut self) -> (r: Vec<ClockAction>) {
        let now = self.now();
        queue_pop_expired(&mut self.timers, now)
    }
}

/// The virtual provider: current time is explicit state, advanced only by
/// [`MockClock::advance`] and [`MockClock::set_time`].  The deterministic
/// test oracle.
#[derive(Debug)]
pub struct MockClock {
    current_time: u64,
    timers: Vec<TimerEvent>,
}

impl MockClock {
    pub fn new() -> (r: Self)
        ensures
            r.wf(),
            r.timer_seq() == Seq::<TimerEvent>::empty(),
            r.time_known(),
            r.current() == 0,
    {
        MockClock { current_time: 0, timers: Vec::new() }
    }

    /// Moves the virtual time forward by `duration` milliseconds.
    pub fn advance(&mut self, duration: u64)
        ensures
            final(self).current() == add_sat_spec(old(self).current(), duration),
            final(self).timer_seq() == old(self).timer_seq(),
            final(self).wf() == old(self).wf(),
            final(self).time_known(),
    {
        self.current_time = add_sat(self.current_time, duration);
    }

    /// Sets the virtual time.
    pub fn set_time(&mut self, time: u64)
        ensures
            final(self).current() == time,
            final(self).timer_seq() == old(self).timer_seq(),
            final(self).wf() == old(self).wf(),
            final(self).time_known(),
    {
        self.current_time = time;
    }

    /// A copy of the pending timers, earliest first.
    pub fn pending_timers(&self) -> (r: Vec<TimerEvent>)
        ensures
            r@.len() == self.timer_seq().len(),
            forall|i: int|
                0 <= i < r@.len() ==> te_eq_spec(#[trigger] r@[i], self.timer_seq()[i]),
    {
        let mut r: Vec<TimerEvent> = Vec::new();
        let mut i: usize = 0;
        while i < self.timers.len()
            invariant
                i <= self.timers@.len(),
                r@.len() == i,
                forall|j: int| 0 <= j < i ==> te_eq_spec(#[trigger] r@[j], self.timers@[j]),
            decreases self.timers@.len() - i,
        {
            r.push(self.timers[i].clone());
            i = i + 1;
        }
        r
    }

    /// Whether two actions are the same for cancellation purposes.
    pub fn actions_match(action1: &ClockAction, action2: &ClockAction) -> (r: bool)
        ensures
            r == actions_match_spec(*action1, *action2),
    {
        actions_match(action1, action2)
    }
}

impl Default for MockClock {
    fn default() -> (r: Self)
        ensures
            r.wf(),
            r.timer_seq() == Seq::<TimerEvent>::empty(),
            r.time_known(),
            r.current() == 0,
    {
        MockClock::new()
    }
}

impl ClockProvider for MockClock {
    closed spec fn timer_seq(&self) -> Seq<TimerEvent> {
        self.timers@
    }

    closed spec fn time_known(&self) -> bool {
        true
    }

    closed spec fn current(&self) -> u64 {
        self.current_time
    }

    closed spec fn wf(&self) -> bool {
        sorted_by_when(self.timers@)
    }

    fn now(&self) -> (t: u64) {
        self.current_time
    }

    fn schedule(&mut self, action: ClockAction, delay: u64) {
        let when = add_sat(self.current_time, delay);
        self.schedule_at(action, when);
    }

    fn schedule_at(&mut self, action: ClockAction, when: u64) {
        let ghost ev = TimerEvent { when, action };
        let pos = queue_insert(&mut self.timers, TimerEvent { when, action });
        proof {
            assert(self.timer_seq() == old(self).timer_seq().insert(pos as int, ev));
        }
    }

    fn cancel(&mut self, action_type: &ClockAction) {
        queue_cancel(&mut self.timers, action_type);
    }

    fn next_timeout(&self) -> (r: Option<u64>) {
        queue_next_timeout(&self.timers, self.current_time)
    }

    fn check_timers(&mut self) -> (r: Vec<ClockAction>) {
        let now = self.current_time;
        queue_pop_expired(&mut self.timers, now)
    }
}

} // verus!
