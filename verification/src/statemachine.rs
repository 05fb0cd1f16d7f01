//! Execution of resolved decisions: a wrapper that drains the contiguous
//! prefix of resolved slots into a user state machine, in slot order,
//! executing each slot at most once.

use vstd::prelude::*;
use crate::{Replica, Slot};
use crate::commands::{Command, CommandMetas, Receiver};
use crate::value::{bytes_view, value_is_empty, Value};
use crate::window::DecisionSet;

verus! {

/// A state machine that executes sequentially applied commands.
pub trait ReplicatedState {
    /// Applies a value to the state machine. Values arrive in increasing
    /// slot order; slots whose decision was a no-op are skipped, so the
    /// slots seen here may have gaps.
    fn execute(&mut self, slot: Slot, command: Value);
}

/// Replica that executes resolved commands within a state machine.
pub struct StateMachineReplica<R: Replica, S: ReplicatedState> {
    /// The wrapped replica.
    pub inner: R,
    /// The user state machine fed with decided values.
    pub state_machine: S,
    /// The next slot whose decision has not been drained yet.
    pub next_execution_slot: Slot,
    /// The history of `execute` calls made, in order.
    pub executed: Ghost<Seq<(Slot, Seq<u8>)>>,
}

impl<R: Replica, S: ReplicatedState> StateMachineReplica<R, S> {
    /// The execution history is strictly slot-ordered and lies below the
    /// next execution slot.
    pub open spec fn execution_wf(&self) -> bool {
        &&& forall|i: int, j: int|
            0 <= i < j < self.executed@.len() ==> (#[trigger] self.executed@[i]).0 < (
            #[trigger] self.executed@[j]).0
        &&& forall|i: int|
            0 <= i < self.executed@.len() ==> (#[trigger] self.executed@[i]).0
                < self.next_execution_slot
    }

    /// Wraps a replica and a fresh state machine; nothing executed yet.
    pub fn new(replica: R, state_machine: S) -> (m: StateMachineReplica<R, S>)
        ensures
            m.inner == replica,
            m.state_machine == state_machine,
            m.next_execution_slot == 0,
            m.executed@ == Seq::<(Slot, Seq<u8>)>::empty(),
            m.execution_wf(),
    {
        StateMachineReplica {
            inner: replica,
            state_machine,
            next_execution_slot: 0,
            executed: Ghost(Seq::empty()),
        }
    }

    /// Drains the contiguous run of resolved slots that starts at the next
    /// execution slot: each decision in slot order, non-empty values
    /// executed, empty (no-op) values skipped but counted. Stops at the
    /// first unresolved slot, preserving total order.
    #[verifier::loop_isolation(false)]
    fn try_execute_slots(&mut self)
        requires
            old(self).inner.wf(),
            old(self).execution_wf(),
        ensures
            final(self).inner == old(self).inner,
            final(self).execution_wf(),
            final(self).next_execution_slot >= old(self).next_execution_slot,
            old(self).executed@.is_prefix_of(final(self).executed@),
            forall|i: int|
                old(self).executed@.len() <= i < final(self).executed@.len() ==> (
                #[trigger] final(self).executed@[i]).0 >= old(self).next_execution_slot,
            forall|i: int|
                old(self).executed@.len() <= i < final(self).executed@.len() ==> final(self).inner.decisions_spec().contains(#[trigger] final(self).executed@[i]),
    {
        let decided = self.inner.decisions();
        let pending = decided.from_slot(self.next_execution_slot);
        let mut i: usize = 0;
        while i < pending.len()
            invariant
                i <= pending@.len(),
                self.inner == old(self).inner,
                self.execution_wf(),
                self.next_execution_slot >= old(self).next_execution_slot,
                old(self).executed@.is_prefix_of(self.executed@),
                forall|k: int|
                    old(self).executed@.len() <= k < self.executed@.len() ==> (
                    #[trigger] self.executed@[k]).0 >= old(self).next_execution_slot,
                forall|k: int|
                    old(self).executed@.len() <= k < self.executed@.len() ==> decided@.contains(
                        #[trigger] self.executed@[k],
                    ),
                decided@ == self.inner.decisions_spec(),
            decreases pending@.len() - i,
        {
            let (slot, decision) = &pending[i];
            if *slot != self.next_execution_slot || *slot == u64::MAX {
                break ;
            }
            if !value_is_empty(decision) {
                let val = crate::value::bytes_clone(decision);
                self.state_machine.execute(*slot, val);
                proof {
                    let pview = crate::window::pairs_of(pending@);
                    assert(pview[i as int] == (*slot, bytes_view(*decision)));
                    assert(decided@.contains((*slot, bytes_view(*decision))));
                    self.executed@ = self.executed@.push((*slot, bytes_view(*decision)));
                }
            }
            self.next_execution_slot = *slot + 1;
            i = i + 1;
        }
    }
}

impl<R: Replica, S: ReplicatedState> Receiver for StateMachineReplica<R, S> {
    /// A state-machine replica is well formed when its replica is and its
    /// execution history is strictly ordered.
    open spec fn wf(&self) -> bool {
        self.inner.wf() && self.execution_wf()
    }

    /// Hands the command to the wrapped replica, then drains newly
    /// resolved decisions in slot order. Everything already executed stays
    /// executed exactly once: the history only grows at its end.
    fn receive(&mut self, cmd: Command, cmd_metas: CommandMetas)
        ensures
            old(self).executed@.is_prefix_of(final(self).executed@),
            final(self).next_execution_slot >= old(self).next_execution_slot,
            // anything newly drained lies at or above the previous mark,
            // in strictly increasing slot order below the new mark, and is
            // a decision the replica really holds
            forall|i: int|
                old(self).executed@.len() <= i < final(self).executed@.len() ==> (
                #[trigger] final(self).executed@[i]).0 >= old(self).next_execution_slot && final(self).executed@[i].0 < final(self).next_execution_slot,
            forall|i: int|
                old(self).executed@.len() <= i < final(self).executed@.len() ==> final(self).inner.decisions_spec().contains(#[trigger] final(self).executed@[i]),
    {
        self.inner.receive(cmd, cmd_metas);
        self.try_execute_slots();
    }
}

impl<R: Replica, S: ReplicatedState> Replica for StateMachineReplica<R, S> {
    /// Leadership is the wrapped replica's.
    open spec fn leader_spec(&self) -> bool {
        self.inner.leader_spec()
    }

    /// The decisions are the wrapped replica's.
    open spec fn decisions_spec(&self) -> Seq<(Slot, Seq<u8>)> {
        self.inner.decisions_spec()
    }

    fn propose_leadership(&mut self, cmd_metas: CommandMetas) {
        self.inner.propose_leadership(cmd_metas);
    }

    fn is_leader(&self) -> (r: bool) {
        self.inner.is_leader()
    }

    fn decisions(&self) -> (d: DecisionSet) {
        self.inner.decisions()
    }

    fn tick(&mut self, cmd_metas: CommandMetas) {
        self.inner.tick(cmd_metas);
    }
}

/// The execution order law: the sequence of `execute` calls a well-formed
/// state-machine replica has made is strictly slot-ordered, so no slot is
/// executed twice, and every executed slot lies below the next execution
/// slot.
pub proof fn lemma_execution_order<R: Replica, S: ReplicatedState>(
    m: &StateMachineReplica<R, S>,
)
    requires
        m.execution_wf(),
    ensures
        forall|i: int, j: int|
            0 <= i < j < m.executed@.len() ==> (#[trigger] m.executed@[i]).0 < (
            #[trigger] m.executed@[j]).0,
        forall|i: int|
            0 <= i < m.executed@.len() ==> (#[trigger] m.executed@[i]).0 < m.next_execution_slot,
{
}

} // verus!
