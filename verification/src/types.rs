use crate::store::{KeyMap, KeySet};
use vstd::prelude::*;

verus! {

/// The errors the actors surface.  Messages a role does not handle and timer
/// actions that do not apply to it are dropped, not reported.
#[derive(Clone, Copy, Debug, Eq, PartialEq, Structural)]
pub enum PaxosError {
    /// No address is registered for a required node identifier.
    ConfigLookupMiss,
}

/// A process-wide unique identifier for a server in the system.
#[derive(Clone, Copy, Debug, Hash, Eq, PartialEq, Structural)]
pub struct NodeId(pub u64);

impl NodeId {
    pub fn new(id: u64) -> (r: NodeId)
        ensures
            r == (NodeId(id)),
    {
        NodeId(id)
    }
}

/// Nominal identifier of an acceptor; shares the `NodeId` namespace.
#[derive(Clone, Copy, Debug, Hash, Eq, PartialEq, Structural)]
pub struct AcceptorId(pub NodeId);

impl AcceptorId {
    pub fn new(id: u64) -> (r: AcceptorId)
        ensures
            r == (AcceptorId(NodeId(id))),
    {
        AcceptorId(NodeId::new(id))
    }

    pub fn as_ref(&self) -> (r: &NodeId)
        ensures
            r == self.0,
    {
        &self.0
    }
}

/// Nominal identifier of a leader; shares the `NodeId` namespace.
#[derive(Clone, Copy, Debug, Hash, Eq, PartialEq, Structural)]
pub struct LeaderId(pub NodeId);

impl LeaderId {
    pub fn new(id: u64) -> (r: LeaderId)
        ensures
            r == (LeaderId(NodeId(id))),
    {
        LeaderId(NodeId::new(id))
    }

    pub fn as_ref(&self) -> (r: &NodeId)
        ensures
            r == self.0,
    {
        &self.0
    }
}

/// Nominal identifier of a replica; shares the `NodeId` namespace.
#[derive(Clone, Copy, Debug, Hash, Eq, PartialEq, Structural)]
pub struct ReplicaId(pub NodeId);

impl ReplicaId {
    pub fn new(id: u64) -> (r: ReplicaId)
        ensures
            r == (ReplicaId(NodeId(id))),
    {
        ReplicaId(NodeId::new(id))
    }

    pub fn as_ref(&self) -> (r: &NodeId)
        ensures
            r == self.0,
    {
        &self.0
    }
}

/// A ballot number is a lexicographically ordered pair of a round number and
/// the identifier of the ballot's leader.
#[derive(Clone, Copy, Debug, Hash, Eq, PartialEq, Structural)]
pub struct BallotNumber {
    pub round: u64,
    pub leader: LeaderId,
}

/// The lexicographic order on ballots: round first, then leader identifier.
pub open spec fn ballot_le(a: BallotNumber, b: BallotNumber) -> bool {
    a.round < b.round || (a.round == b.round && a.leader.0.0 <= b.leader.0.0)
}

/// Strict version of [`ballot_le`].
pub open spec fn ballot_lt(a: BallotNumber, b: BallotNumber) -> bool {
    ballot_le(a, b) && a != b
}

impl BallotNumber {
    /// The first ballot a leader mints: round zero, bound to itself.
    pub fn new(leader_id: LeaderId) -> (r: BallotNumber)
        ensures
            r == (BallotNumber { round: 0, leader: leader_id }),
    {
        BallotNumber { round: 0, leader: leader_id }
    }

    /// Three-way test `self <= other` under the lexicographic ballot order.
    pub fn le(&self, other: &BallotNumber) -> (r: bool)
        ensures
            r == ballot_le(*self, *other),
    {
        self.round < other.round || (self.round == other.round && self.leader.0.0 <= other.leader.0.0)
    }

    /// Strict test `self < other` under the lexicographic ballot order.
    pub fn lt(&self, other: &BallotNumber) -> (r: bool)
        ensures
            r == ballot_lt(*self, *other),
    {
        self.round < other.round || (self.round == other.round && self.leader.0.0 < other.leader.0.0)
    }
}

/// Ballot uniqueness: two ballots with the same round and the same leader are
/// the same ballot.
pub proof fn lemma_ballot_uniqueness(a: BallotNumber, b: BallotNumber)
    requires
        a.round == b.round,
        a.leader == b.leader,
    ensures
        a == b,
{
}

/// The ballot order is antisymmetric: `a <= b` and `b <= a` force `a == b`,
/// so no two distinct ballots compare equal.
pub proof fn lemma_ballot_order_antisymmetric(a: BallotNumber, b: BallotNumber)
    requires
        ballot_le(a, b),
        ballot_le(b, a),
    ensures
        a == b,
{
}

/// The ballot order is total: any two ballots compare one way or the other.
pub proof fn lemma_ballot_order_total(a: BallotNumber, b: BallotNumber)
    ensures
        ballot_le(a, b) || ballot_le(b, a),
{
}

/// The ballot order is transitive.
pub proof fn lemma_ballot_order_transitive(a: BallotNumber, b: BallotNumber, c: BallotNumber)
    requires
        ballot_le(a, b),
        ballot_le(b, c),
    ensures
        ballot_le(a, c),
{
}

/// A network address: used only for envelope routing, never interpreted.
#[derive(Debug, PartialEq)]
pub struct Address {
    pub ip: String,
    pub port: u64,
}

/// Content equality of addresses.
pub open spec fn addr_eq_spec(a: Address, b: Address) -> bool {
    a.ip@ == b.ip@ && a.port == b.port
}

impl Address {
    pub fn new(ip: String, port: u64) -> (r: Address)
        ensures
            r.ip == ip,
            r.port == port,
    {
        Address { ip, port }
    }

    /// Content equality test.
    pub fn addr_eq(&self, other: &Address) -> (r: bool)
        ensures
            r == addr_eq_spec(*self, *other),
    {
        self.ip == other.ip && self.port == other.port
    }
}

impl Clone for Address {
    fn clone(&self) -> (r: Self)
        ensures
            r == *self,
    {
        Address { ip: self.ip.clone(), port: self.port }
    }
}

/// Bounds for the adaptive backoff timers.  All durations are in whole
/// milliseconds; the multiplier is a percentage, so `150` multiplies a
/// timeout by one and a half.
#[derive(Clone, Copy, Debug, Eq, PartialEq, Structural)]
pub struct TimeoutConfig {
    pub min_timeout: u64,
    pub max_timeout: u64,
    pub timeout_multiplier_percent: u64,
    pub timeout_decrease: u64,
}

impl TimeoutConfig {
    /// Sound backoff bounds: the multiplier strictly exceeds one, and the
    /// range is small enough that scaling a timeout can never overflow.
    pub open spec fn wf(&self) -> bool {
        &&& 0 < self.min_timeout <= self.max_timeout
        &&& 100 < self.timeout_multiplier_percent <= 10000
        &&& self.max_timeout <= 0xffff_ffff
    }
}

impl Default for TimeoutConfig {
    /// 100 ms to 10 s, multiplying by one and a half on each retry.
    fn default() -> (r: Self)
        ensures
            r == (TimeoutConfig {
                min_timeout: 100,
                max_timeout: 10000,
                timeout_multiplier_percent: 150,
                timeout_decrease: 50,
            }),
            r.wf(),
    {
        TimeoutConfig {
            min_timeout: 100,
            max_timeout: 10000,
            timeout_multiplier_percent: 150,
            timeout_decrease: 50,
        }
    }
}

/// A command names the client that submitted it, a client-local request
/// identifier, and the operation itself.
#[derive(Debug, PartialEq)]
pub struct Command {
    pub client_id: NodeId,
    pub request_id: u64,
    pub op: CommandType,
}

#[derive(Debug, PartialEq)]
pub enum CommandType {
    /// An opaque operation for the replicated application.
    Op(Vec<u8>),
    /// A command that changes the configuration of the system; chosen through
    /// the same slots as ordinary operations so every replica installs it at
    /// the same point.
    Reconfig(Config),
}

/// A PValue is an acceptor's report that it accepted `command` at `slot`
/// under `ballot_number`.
#[derive(Debug, PartialEq)]
pub struct PValue {
    pub ballot_number: BallotNumber,
    pub slot: u64,
    pub command: Command,
}

/// Membership and routing: the replicas, acceptors and leaders of the
/// system, the address of each, and the timer bounds.
#[derive(Debug, PartialEq)]
pub struct Config {
    pub replicas: KeySet<ReplicaId>,
    pub acceptors: KeySet<AcceptorId>,
    pub leaders: KeySet<LeaderId>,
    pub id_address_map: KeyMap<NodeId, Address>,
    pub timeout_config: TimeoutConfig,
}

/// Content equality of two address tables, entry by entry.
pub open spec fn addr_entries_eq(s: Seq<(NodeId, Address)>, t: Seq<(NodeId, Address)>) -> bool {
    s.len() == t.len() && forall|i: int|
        0 <= i < s.len() ==> (#[trigger] s[i]).0 == t[i].0 && addr_eq_spec(s[i].1, t[i].1)
}

/// Content equality of configurations: same members in the same order, the
/// same address table and the same timer bounds.
pub open spec fn cfg_eq_spec(a: Config, b: Config) -> bool {
    &&& a.replicas@ == b.replicas@
    &&& a.acceptors@ == b.acceptors@
    &&& a.leaders@ == b.leaders@
    &&& a.timeout_config == b.timeout_config
    &&& addr_entries_eq(a.id_address_map.entries(), b.id_address_map.entries())
}

/// Content equality of operations: equal payload bytes, or configurations
/// with equal content.
pub open spec fn op_eq_spec(a: CommandType, b: CommandType) -> bool {
    match (a, b) {
        (CommandType::Op(x), CommandType::Op(y)) => x@ == y@,
        (CommandType::Reconfig(c), CommandType::Reconfig(d)) => cfg_eq_spec(c, d),
        _ => false,
    }
}

/// Structural equality of commands over all three fields.
pub open spec fn cmd_eq_spec(a: Command, b: Command) -> bool {
    a.client_id == b.client_id && a.request_id == b.request_id && op_eq_spec(a.op, b.op)
}

/// Content equality of PValues.
pub open spec fn pv_eq_spec(a: PValue, b: PValue) -> bool {
    a.ballot_number == b.ballot_number && a.slot == b.slot && cmd_eq_spec(a.command, b.command)
}

/// Byte-for-byte equality of two payloads.
fn bytes_eq(a: &Vec<u8>, b: &Vec<u8>) -> (r: bool)
    ensures
        r == (a@ == b@),
{
    if a.len() != b.len() {
        return false;
    }
    let mut i: usize = 0;
    while i < a.len()
        invariant
            a@.len() == b@.len(),
            i <= a@.len(),
            forall|j: int| 0 <= j < i ==> a@[j] == b@[j],
        decreases a@.len() - i,
    {
        if a[i] != b[i] {
            return false;
        }
        i = i + 1;
    }
    proof {
        assert(a@ =~= b@);
    }
    true
}

/// Copy of a byte payload.
fn bytes_clone(a: &Vec<u8>) -> (r: Vec<u8>)
    ensures
        r@ == a@,
{
    let mut r: Vec<u8> = Vec::new();
    let mut i: usize = 0;
    while i < a.len()
        invariant
            i <= a@.len(),
            r@ == a@.take(i as int),
        decreases a@.len() - i,
    {
        r.push(a[i]);
        proof {
            assert(a@.take(i + 1 as int) =~= a@.take(i as int).push(a@[i as int]));
        }
        i = i + 1;
    }
    proof {
        assert(a@.take(a@.len() as int) =~= a@);
    }
    r
}

/// Content equality test for configurations.
pub fn config_eq(a: &Config, b: &Config) -> (r: bool)
    ensures
        r == cfg_eq_spec(*a, *b),
{
    if !a.replicas.seq_eq(&b.replicas) {
        return false;
    }
    if !a.acceptors.seq_eq(&b.acceptors) {
        return false;
    }
    if !a.leaders.seq_eq(&b.leaders) {
        return false;
    }
    if a.timeout_config != b.timeout_config {
        return false;
    }
    if a.id_address_map.len() != b.id_address_map.len() {
        return false;
    }
    let n = a.id_address_map.len();
    let mut i: usize = 0;
    while i < n
        invariant
            n == a.id_address_map.entries().len(),
            n == b.id_address_map.entries().len(),
            i <= n,
            forall|j: int|
                0 <= j < i ==> (#[trigger] a.id_address_map.entries()[j]).0
                    == b.id_address_map.entries()[j].0 && addr_eq_spec(
                    a.id_address_map.entries()[j].1,
                    b.id_address_map.entries()[j].1,
                ),
        decreases n - i,
    {
        if a.id_address_map.key_at(i) != b.id_address_map.key_at(i) {
            return false;
        }
        if !a.id_address_map.val_at(i).addr_eq(b.id_address_map.val_at(i)) {
            return false;
        }
        i = i + 1;
    }
    true
}

/// Structural equality test for commands.
pub fn command_eq(a: &Command, b: &Command) -> (r: bool)
    ensures
        r == cmd_eq_spec(*a, *b),
{
    if a.client_id != b.client_id || a.request_id != b.request_id {
        return false;
    }
    match (&a.op, &b.op) {
        (CommandType::Op(x), CommandType::Op(y)) => bytes_eq(x, y),
        (CommandType::Reconfig(c), CommandType::Reconfig(d)) => config_eq(c, d),
        _ => false,
    }
}

impl Clone for Config {
    fn clone(&self) -> (r: Self)
        ensures
            cfg_eq_spec(r, *self),
            r.replicas@ == self.replicas@,
            r.acceptors@ == self.acceptors@,
            r.leaders@ == self.leaders@,
            r.timeout_config == self.timeout_config,
            r.id_address_map@ == self.id_address_map@,
            r.id_address_map.entries() == self.id_address_map.entries(),
    {
        let addrs = self.id_address_map.clone();
        proof {
            assert forall|i: int| 0 <= i < addrs.entries().len() implies (
            #[trigger] addrs.entries()[i]) == self.id_address_map.entries()[i] by {
                let a = self.id_address_map.entries()[i].1;
                let b = addrs.entries()[i].1;
                assert(vstd::pervasive::cloned::<Address>(a, b));
                if vstd::pervasive::strictly_cloned::<Address>(a, b) {
                    assert(call_ensures(<Address as Clone>::clone, (&a,), b));
                    assert(b == a);
                }
            }
            assert(addrs.entries() =~= self.id_address_map.entries());
            KeyMap::lemma_same_entries_same_view(&addrs, &self.id_address_map);
        }
        Config {
            replicas: self.replicas.clone(),
            acceptors: self.acceptors.clone(),
            leaders: self.leaders.clone(),
            id_address_map: addrs,
            timeout_config: self.timeout_config,
        }
    }
}

impl Clone for CommandType {
    fn clone(&self) -> (r: Self)
        ensures
            op_eq_spec(r, *self),
    {
        match self {
            CommandType::Op(v) => CommandType::Op(bytes_clone(v)),
            CommandType::Reconfig(c) => CommandType::Reconfig(c.clone()),
        }
    }
}

impl Clone for Command {
    fn clone(&self) -> (r: Self)
        ensures
            cmd_eq_spec(r, *self),
    {
        Command { client_id: self.client_id, request_id: self.request_id, op: self.op.clone() }
    }
}

impl Clone for PValue {
    fn clone(&self) -> (r: Self)
        ensures
            pv_eq_spec(r, *self),
    {
        PValue {
            ballot_number: self.ballot_number,
            slot: self.slot,
            command: self.command.clone(),
        }
    }
}

impl Config {
    pub fn new(
        replicas: KeySet<ReplicaId>,
        acceptors: KeySet<AcceptorId>,
        leaders: KeySet<LeaderId>,
        id_address_map: KeyMap<NodeId, Address>,
        timeout_config: Option<TimeoutConfig>,
    ) -> (r: Config)
        ensures
            r.replicas == replicas,
            r.acceptors == acceptors,
            r.leaders == leaders,
            r.id_address_map == id_address_map,
            r.timeout_config == if timeout_config is Some {
                timeout_config->0
            } else {
                TimeoutConfig {
                    min_timeout: 100,
                    max_timeout: 10000,
                    timeout_multiplier_percent: 150,
                    timeout_decrease: 50,
                }
            },
    {
        let tc = match timeout_config {
            Some(tc) => tc,
            None => TimeoutConfig::default(),
        };
        Config { replicas, acceptors, leaders, id_address_map, timeout_config: tc }
    }

    /// A usable configuration: member lists and the address table have no
    /// duplicates, the timer bounds are sound, and every member has an
    /// address.
    pub open spec fn wf(&self) -> bool {
        &&& self.replicas.uniq()
        &&& self.acceptors.uniq()
        &&& self.leaders.uniq()
        &&& self.id_address_map.uniq()
        &&& self.timeout_config.wf()
        &&& forall|i: int|
            0 <= i < self.replicas@.len() ==> self.id_address_map@.dom().contains(
                (#[trigger] self.replicas@[i]).0,
            )
        &&& forall|i: int|
            0 <= i < self.acceptors@.len() ==> self.id_address_map@.dom().contains(
                (#[trigger] self.acceptors@[i]).0,
            )
        &&& forall|i: int|
            0 <= i < self.leaders@.len() ==> self.id_address_map@.dom().contains(
                (#[trigger] self.leaders@[i]).0,
            )
    }

    /// The address registered for `id`, if any.
    pub fn get_address(&self, id: &NodeId) -> (r: Option<&Address>)
        requires
            self.id_address_map.uniq(),
        ensures
            match r {
                Some(a) => self.id_address_map@.dom().contains(*id) && *a
                    == self.id_address_map@[*id],
                None => !self.id_address_map@.dom().contains(*id),
            },
    {
        self.id_address_map.get(id)
    }

    /// Decides [`Config::wf`] at run time; used before a replica installs a
    /// configuration carried by a Reconfig decision.
    pub fn is_well_formed(&self) -> (r: bool)
        ensures
            r == self.wf(),
    {
        if !self.replicas.is_uniq() || !self.acceptors.is_uniq() || !self.leaders.is_uniq() {
            return false;
        }
        if !self.id_address_map.is_uniq() {
            return false;
        }
        let tc = &self.timeout_config;
        if !(0 < tc.min_timeout && tc.min_timeout <= tc.max_timeout && 100
            < tc.timeout_multiplier_percent && tc.timeout_multiplier_percent <= 10000
            && tc.max_timeout <= 0xffff_ffff) {
            return false;
        }
        let mut i: usize = 0;
        while i < self.replicas.len()
            invariant
                self.id_address_map.uniq(),
                i <= self.replicas@.len(),
                forall|j: int|
                    0 <= j < i ==> self.id_address_map@.dom().contains(
                        (#[trigger] self.replicas@[j]).0,
                    ),
            decreases self.replicas@.len() - i,
        {
            if !self.id_address_map.contains_key(self.replicas.get(i).as_ref()) {
                return false;
            }
            i = i + 1;
        }
        let mut i: usize = 0;
        while i < self.acceptors.len()
            invariant
                self.id_address_map.uniq(),
                i <= self.acceptors@.len(),
                forall|j: int|
                    0 <= j < i ==> self.id_address_map@.dom().contains(
                        (#[trigger] self.acceptors@[j]).0,
                    ),
            decreases self.acceptors@.len() - i,
        {
            if !self.id_address_map.contains_key(self.acceptors.get(i).as_ref()) {
                return false;
            }
            i = i + 1;
        }
        let mut i: usize = 0;
        while i < self.leaders.len()
            invariant
                self.id_address_map.uniq(),
                i <= self.leaders@.len(),
                forall|j: int|
                    0 <= j < i ==> self.id_address_map@.dom().contains(
                        (#[trigger] self.leaders@[j]).0,
                    ),
            decreases self.leaders@.len() - i,
        {
            if !self.id_address_map.contains_key(self.leaders.get(i).as_ref()) {
                return false;
            }
            i = i + 1;
        }
        true
    }
}

/// Command-content equality is reflexive.
pub proof fn lemma_cmd_eq_refl(a: Command)
    ensures
        cmd_eq_spec(a, a),
{
}

/// Command-content equality is symmetric.
pub proof fn lemma_cmd_eq_sym(a: Command, b: Command)
    requires
        cmd_eq_spec(a, b),
    ensures
        cmd_eq_spec(b, a),
{
}

/// Command-content equality is transitive.
pub proof fn lemma_cmd_eq_trans(a: Command, b: Command, c: Command)
    requires
        cmd_eq_spec(a, b),
        cmd_eq_spec(b, c),
    ensures
        cmd_eq_spec(a, c),
{
}

/// What every server role offers: its identifier and its address.
pub trait Server {
    fn id(&self) -> &NodeId;

    fn address(&self) -> &Address;
}

} // verus!
