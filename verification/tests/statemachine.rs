//! State-machine execution tests: resolved decisions are drained in slot
//! order, exactly once, halting at the first unresolved slot until a no-op
//! fills the hole.

use bytes::Bytes;
use paxos_core::commands::{Command, CommandMetas, Receiver};
use paxos_core::statemachine::{ReplicatedState, StateMachineReplica};
use paxos_core::window::{DecisionSet, SlotWindow};
use paxos_core::{Ballot, Replica, Slot};

#[derive(Default)]
struct VecStateMachine(Vec<(Slot, Bytes)>);

impl ReplicatedState for VecStateMachine {
    fn execute(&mut self, slot: Slot, val: Bytes) {
        self.0.push((slot, val))
    }
}

struct FakeReplica(SlotWindow);

impl Receiver for FakeReplica {
    fn receive(&mut self, _cmd: Command, _cmd_metas: CommandMetas) {}
}

impl Replica for FakeReplica {
    fn propose_leadership(&mut self, _cmd_metas: CommandMetas) {
        panic!();
    }

    fn is_leader(&self) -> bool {
        panic!()
    }

    fn tick(&mut self, _cmd_metas: CommandMetas) {}

    fn decisions(&self) -> DecisionSet {
        self.0.decisions()
    }
}

fn window_with_hole() -> SlotWindow {
    let mut w = SlotWindow::new(2);
    let s0 = w.next_slot();
    w.slot_mut(s0).resolve(Ballot(1, 1), "0".into());
    let s1 = w.next_slot();
    w.slot_mut(s1).resolve(Ballot(1, 1), "1".into());
    w.ensure_open(3);
    w.slot_mut(3).resolve(Ballot(2, 2), "2".into());
    w
}

#[test]
fn resolve_executes_decisions() {
    let inner_replica = FakeReplica(window_with_hole());

    let mut replica = StateMachineReplica::new(inner_replica, VecStateMachine::default());
    let cmd_metas = CommandMetas("".into());
    replica.receive(Command::Resolution { payload: (Ballot(2, 2), vec![]) }, cmd_metas.dup());
    assert_eq!(vec![(0u64, Bytes::from("0")), (1, Bytes::from("1"))], replica.state_machine.0);
    replica.state_machine.0.clear();

    // does not happen again
    replica.receive(Command::Resolution { payload: (Ballot(2, 2), vec![]) }, cmd_metas.dup());
    assert!(replica.state_machine.0.is_empty());

    // fill hole in slot 2, freeing 3
    replica.inner.0.ensure_open(2);
    replica.inner.0.slot_mut(2).resolve(Ballot(1, 1), Bytes::new());

    replica.receive(Command::Resolution { payload: (Ballot(2, 2), vec![]) }, cmd_metas.dup());
    assert_eq!(vec![(3u64, Bytes::from("2"))], replica.state_machine.0);
}

#[test]
fn accepted_executes_decisions() {
    let inner_replica = FakeReplica(window_with_hole());

    let mut replica = StateMachineReplica::new(inner_replica, VecStateMachine::default());
    let cmd_metas = CommandMetas("".into());
    replica.receive(Command::Accepted { payload: (0, Ballot(2, 2), vec![]) }, cmd_metas.dup());
    assert_eq!(vec![(0u64, Bytes::from("0")), (1, Bytes::from("1"))], replica.state_machine.0);
    replica.state_machine.0.clear();

    // does not happen again
    replica.receive(Command::Accepted { payload: (1, Ballot(2, 2), vec![]) }, cmd_metas.dup());
    assert!(replica.state_machine.0.is_empty());

    // fill hole in slot 2, freeing 3
    replica.inner.0.ensure_open(2);
    replica.inner.0.slot_mut(2).resolve(Ballot(1, 1), Bytes::new());

    replica.receive(Command::Accepted { payload: (2, Ballot(2, 2), vec![]) }, cmd_metas.dup());
    assert_eq!(vec![(3u64, Bytes::from("2"))], replica.state_machine.0);
}

#[test]
fn decisions_list_is_slot_ordered() {
    let w = window_with_hole();
    let d = w.decisions();
    assert_eq!(d.len(), 3);
    assert_eq!(d.get(0).0, 0);
    assert_eq!(d.get(1).0, 1);
    assert_eq!(d.get(2).0, 3);
    assert_eq!(d.get(2).1, Bytes::from("2"));
    let tail = d.from_slot(1);
    assert_eq!(tail.len(), 2);
    assert_eq!(tail[0].0, 1);
    assert_eq!(tail[1].0, 3);
}

#[test]
fn next_slot_opens_the_smallest_untouched_slot() {
    let mut w = SlotWindow::new(2);
    w.ensure_open(2); // materializes empty slots 0 and 1 below an open 2
    assert_eq!(w.next_slot(), 0);
    assert_eq!(w.next_slot(), 1);
    assert_eq!(w.next_slot(), 3); // nothing untouched is left in the window
    assert_eq!(w.first_unresolved(), 0);
    w.slot_mut(0).resolve(Ballot(1, 1), Bytes::from("v"));
    assert_eq!(w.first_unresolved(), 1);
}
