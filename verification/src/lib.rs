//! A Multi-Paxos consensus core: per-slot Paxos role machines, a sliding
//! decision window, a raw replica that dispatches wire commands, a liveness
//! wrapper that elects leaders by timeout, and a state-machine wrapper that
//! executes resolved slots in order.

use vstd::prelude::*;

pub mod codec;
pub mod commands;
pub mod config;
pub mod liveness;
pub mod replica;
pub mod roles;
pub mod slot;
pub mod statemachine;
pub mod value;
pub mod window;

verus! {

/// Identifier of a node, stable for the lifetime of a configuration.
pub type NodeId = u32;

/// Position in the agreed log.
pub type Slot = u64;

/// A totally ordered leader epoch: `(round, node_id)`, compared
/// lexicographically.
#[derive(Clone, Copy, PartialEq, Eq, Structural, Debug, Hash)]
pub struct Ballot(pub u32, pub u32);

impl Ballot {
    /// Strict lexicographic order on `(round, node_id)`.
    pub open spec fn lt_spec(self, other: Ballot) -> bool {
        self.0 < other.0 || (self.0 == other.0 && self.1 < other.1)
    }

    /// Non-strict lexicographic order on `(round, node_id)`.
    pub open spec fn le_spec(self, other: Ballot) -> bool {
        self.lt_spec(other) || self == other
    }

    /// Decides `self < other` in the lexicographic ballot order.
    pub fn lt(&self, other: &Ballot) -> (r: bool)
        ensures
            r == self.lt_spec(*other),
    {
        self.0 < other.0 || (self.0 == other.0 && self.1 < other.1)
    }

    /// Decides `self <= other` in the lexicographic ballot order.
    pub fn le(&self, other: &Ballot) -> (r: bool)
        ensures
            r == self.le_spec(*other),
    {
        self.0 < other.0 || (self.0 == other.0 && self.1 <= other.1)
    }

    /// The ballot order is total: of any two ballots one is `<=` the other,
    /// and both hold only for equal ballots.
    pub proof fn lemma_order_total(a: Ballot, b: Ballot)
        ensures
            a.le_spec(b) || b.le_spec(a),
            a.le_spec(b) && b.le_spec(a) ==> a == b,
    {
    }

    /// The ballot order is transitive.
    pub proof fn lemma_order_trans(a: Ballot, b: Ballot, c: Ballot)
        requires
            a.le_spec(b),
            b.le_spec(c),
        ensures
            a.le_spec(c),
    {
    }
}

/// A replica of the consensus group: receives commands, drives timeouts,
/// and exposes the resolved decisions.
pub trait Replica: commands::Receiver {
    /// Whether this replica considers itself the leader; `is_leader`
    /// returns it. `false` unless a replica models leadership.
    open spec fn leader_spec(&self) -> bool {
        false
    }

    /// Starts a leadership attempt with a fresh, higher ballot.
    fn propose_leadership(&mut self, cmd_metas: commands::CommandMetas)
        requires
            old(self).wf(),
        ensures
            final(self).wf(),
    ;

    /// Whether this replica currently considers itself the leader.
    fn is_leader(&self) -> (r: bool)
        ensures
            r == self.leader_spec(),
    ;

    /// Drives timeouts and retransmissions; called periodically.
    fn tick(&mut self, cmd_metas: commands::CommandMetas)
        requires
            old(self).wf(),
        ensures
            final(self).wf(),
    ;

    /// The decisions this replica has; `decisions` returns exactly them.
    /// Empty unless a replica models its decisions.
    open spec fn decisions_spec(&self) -> Seq<(Slot, Seq<u8>)> {
        Seq::empty()
    }

    /// The ordered snapshot of resolved decisions.
    fn decisions(&self) -> (d: window::DecisionSet)
        requires
            self.wf(),
        ensures
            d.sorted(),
            d@ == self.decisions_spec(),
    ;
}

} // verus!
