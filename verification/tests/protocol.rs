//! End-to-end protocol scenarios driven over in-memory replicas: a solo
//! proposer, competing proposers, leader crash and recovery, holes with
//! gap-filling, catchup, reordered and duplicated messages.

use bytes::Bytes;
use paxos_core::commands::{Command, CommandMetas, Envelope, Receiver};
use paxos_core::config::{Configuration, NodeMetadata};
use paxos_core::replica::PaxosReplica;
use paxos_core::statemachine::{ReplicatedState, StateMachineReplica};
use paxos_core::{Ballot, Replica, Slot};

fn metas() -> CommandMetas {
    CommandMetas(Bytes::new())
}

fn mk_replica(me: u32, n: u32) -> PaxosReplica {
    let mut peers = Vec::new();
    for i in 0..n {
        if i != me {
            peers.push((i, NodeMetadata(Bytes::new())));
        }
    }
    PaxosReplica::new(Configuration::new(me, peers))
}

/// Delivers every queued envelope until the cluster goes quiet, dropping
/// anything addressed to a node in `dead`.
fn pump(replicas: &mut Vec<PaxosReplica>, dead: &[u32]) {
    loop {
        let mut pending: Vec<Envelope> = Vec::new();
        for r in replicas.iter_mut() {
            pending.append(&mut r.drain_outbound());
        }
        if pending.is_empty() {
            break;
        }
        for env in pending {
            if dead.contains(&env.to) {
                continue;
            }
            replicas[env.to as usize].receive(env.command, env.metas);
        }
    }
}

fn decided(r: &PaxosReplica) -> Vec<(Slot, Bytes)> {
    let d = r.decisions();
    let mut out = Vec::new();
    for i in 0..d.len() {
        out.push(d.get(i));
    }
    out
}

#[derive(Default)]
struct VecMachine(Vec<(Slot, Bytes)>);

impl ReplicatedState for VecMachine {
    fn execute(&mut self, slot: Slot, val: Bytes) {
        self.0.push((slot, val))
    }
}

#[test]
fn solo_proposer_three_nodes() {
    let mut stacks: Vec<StateMachineReplica<PaxosReplica, VecMachine>> = (0..3)
        .map(|i| StateMachineReplica::new(mk_replica(i, 3), VecMachine::default()))
        .collect();

    // the proposal arrives first; node 0 buffers it, then takes leadership
    stacks[0].receive(Command::Proposal { payload: "x".into() }, metas());
    stacks[0].propose_leadership(metas());

    // one round trip: Prepare -> Promise -> Accept -> Accepted -> Resolution
    loop {
        let mut pending: Vec<Envelope> = Vec::new();
        for s in stacks.iter_mut() {
            pending.append(&mut s.inner.drain_outbound());
        }
        if pending.is_empty() {
            break;
        }
        for env in pending {
            stacks[env.to as usize].receive(env.command, env.metas);
        }
    }

    assert!(stacks[0].is_leader());
    for s in stacks.iter() {
        let d = s.decisions();
        assert_eq!(d.len(), 1);
        assert_eq!(d.get(0), (0u64, Bytes::from("x")));
        // execute was called with (0, "x") exactly once
        assert_eq!(s.state_machine.0, vec![(0u64, Bytes::from("x"))]);
    }
}

#[test]
fn competing_proposers_choose_one_value() {
    let mut rs: Vec<PaxosReplica> = (0..3).map(|i| mk_replica(i, 3)).collect();

    rs[0].start_leadership(metas()); // ballot [1,0]
    rs[1].start_leadership(metas()); // ballot [1,1]
    let out0 = rs[0].drain_outbound();
    let out1 = rs[1].drain_outbound();

    // the higher ballot's PREPARE lands first everywhere
    for env in out1 {
        rs[env.to as usize].receive(env.command, env.metas);
    }
    // the lower ballot is now preempted and collects rejects
    for env in out0 {
        rs[env.to as usize].receive(env.command, env.metas);
    }
    pump(&mut rs, &[]);

    assert!(!rs[0].is_leader());
    assert!(rs[1].is_leader());
    // the preempting round was recorded for node 0's next attempt
    assert_eq!(rs[0].observed_round, 1);

    rs[1].receive(Command::Proposal { payload: "y".into() }, metas());
    pump(&mut rs, &[]);

    // safety: every node that decided a slot decided the same value
    let reference = decided(&rs[1]);
    assert!(!reference.is_empty());
    for r in rs.iter() {
        for (slot, val) in decided(r) {
            let same = reference.iter().find(|(s, _)| *s == slot).unwrap();
            assert_eq!(&same.1, &val);
        }
    }
}

#[test]
fn leader_crash_recovers_accepted_value() {
    let mut rs: Vec<PaxosReplica> = (0..3).map(|i| mk_replica(i, 3)).collect();

    // node 0 takes leadership with its proposal buffered
    rs[0].receive(Command::Proposal { payload: "a".into() }, metas());
    rs[0].start_leadership(metas());
    // leadership round trip completes; the ACCEPT for "a" goes out
    let prepares = rs[0].drain_outbound();
    for env in prepares {
        rs[env.to as usize].receive(env.command, env.metas);
    }
    let mut promises: Vec<Envelope> = Vec::new();
    promises.append(&mut rs[1].drain_outbound());
    promises.append(&mut rs[2].drain_outbound());
    for env in promises {
        rs[env.to as usize].receive(env.command, env.metas);
    }
    // node 0 now broadcasts ACCEPT; only node 2 sees it, then node 0 crashes
    let accepts = rs[0].drain_outbound();
    for env in accepts {
        if env.to == 2 {
            rs[env.to as usize].receive(env.command, env.metas);
        }
    }
    rs[2].drain_outbound(); // the ACCEPTED reply is lost with the crash

    // node 1's election timeout lapses; it prepares a higher ballot
    rs[1].start_leadership(metas());
    pump(&mut rs, &[0]);

    // the promise from node 2 carried accepted ("a"); node 1 must adopt it
    assert!(rs[1].is_leader());
    for i in [1usize, 2] {
        let d = decided(&rs[i]);
        assert_eq!(d.len(), 1);
        assert_eq!(d[0].0, 0u64);
        assert_eq!(d[0].1, Bytes::from("a"));
    }
}

#[test]
fn holes_are_gap_filled_and_execution_advances() {
    // a single-node cluster decides with quorum 1
    let mut stack = StateMachineReplica::new(mk_replica(0, 1), VecMachine::default());
    stack.propose_leadership(metas());
    stack.inner.drain_outbound();
    assert!(stack.is_leader());

    // slot 0 resolved as the election's no-op; proposals fill 1 and 2
    stack.receive(Command::Proposal { payload: "p1".into() }, metas());
    stack.receive(Command::Proposal { payload: "p2".into() }, metas());
    stack.inner.drain_outbound();

    // a resolution for a future slot leaves a hole at slot 3
    stack.receive(Command::Resolution { payload: (Ballot(9, 9), vec![(4, "z".into())]) }, metas());
    let d = stack.decisions();
    assert_eq!(d.len(), 4); // slots 0, 1, 2 and 4
    // execution halted before the hole
    assert_eq!(
        stack.state_machine.0,
        vec![(1u64, Bytes::from("p1")), (2u64, Bytes::from("p2"))]
    );

    // after a bounded lapse the leader proposes a no-op for the hole
    for _ in 0..25 {
        stack.tick(metas());
    }
    stack.receive(Command::Resolution { payload: (Ballot(9, 9), vec![]) }, metas());
    let d = stack.decisions();
    assert_eq!(d.len(), 5);
    // the no-op advanced execution past the hole to slot 4
    assert_eq!(
        stack.state_machine.0,
        vec![(1u64, Bytes::from("p1")), (2u64, Bytes::from("p2")), (4u64, Bytes::from("z"))]
    );
}

#[test]
fn catchup_resolves_unknown_future_slot() {
    let mut r = mk_replica(2, 3);
    r.receive(Command::Resolution { payload: (Ballot(1, 0), vec![(7, "x".into())]) }, metas());
    let d = decided(&r);
    assert_eq!(d.len(), 1);
    assert_eq!(d[0], (7u64, Bytes::from("x")));
}

#[test]
fn catchup_request_is_answered_from_resolved_slots() {
    let mut r = mk_replica(0, 3);
    r.receive(Command::Resolution { payload: (Ballot(3, 1), vec![(0, "v0".into())]) }, metas());
    r.drain_outbound();
    r.receive(Command::Catchup { payload: (2, vec![0, 5]) }, metas());
    let out = r.drain_outbound();
    assert_eq!(out.len(), 1);
    assert_eq!(out[0].to, 2);
    assert_eq!(
        out[0].command,
        Command::Resolution { payload: (Ballot(3, 1), vec![(0, Bytes::from("v0"))]) }
    );
}

#[test]
fn reordered_accepted_resolves_after_quorum_and_executes_once() {
    // learner at node 2 of a 3-node cluster; quorum is 2
    let mut stack = StateMachineReplica::new(mk_replica(2, 3), VecMachine::default());

    // its own acceptor accepts (ballot [5,1], slot 4) first
    stack.receive(
        Command::Accept { payload: (Ballot(5, 1), vec![(4, "w".into())]) },
        metas(),
    );
    stack.inner.drain_outbound();

    // ACCEPTED messages arrive in the order n2 (itself already counted via
    // its reply), n0, n1, plus a duplicate
    stack.receive(Command::Accepted { payload: (0, Ballot(5, 1), vec![4]) }, metas());
    assert_eq!(stack.decisions().len(), 0);
    stack.receive(Command::Accepted { payload: (1, Ballot(5, 1), vec![4]) }, metas());
    // after the second distinct acceptor, slot 4 is resolved
    let d = stack.decisions();
    assert_eq!(d.len(), 1);
    assert_eq!(d.get(0), (4u64, Bytes::from("w")));

    // a later duplicate is ignored
    stack.receive(Command::Accepted { payload: (1, Ballot(5, 1), vec![4]) }, metas());
    assert_eq!(stack.decisions().len(), 1);
    // nothing executed yet: slots 0..3 are unresolved
    assert!(stack.state_machine.0.is_empty());
}

#[test]
fn duplicate_accepted_does_not_count_twice() {
    let mut r = mk_replica(2, 3);
    r.receive(Command::Accept { payload: (Ballot(5, 1), vec![(4, "w".into())]) }, metas());
    r.drain_outbound();

    // the same acceptor reported twice must not complete a quorum
    r.receive(Command::Accepted { payload: (0, Ballot(5, 1), vec![4]) }, metas());
    r.receive(Command::Accepted { payload: (0, Ballot(5, 1), vec![4]) }, metas());
    assert_eq!(r.decisions().len(), 0);

    r.receive(Command::Accepted { payload: (1, Ballot(5, 1), vec![4]) }, metas());
    assert_eq!(r.decisions().len(), 1);
}

#[test]
fn redelivered_resolution_changes_nothing() {
    let mut r = mk_replica(1, 3);
    let cmd = Command::Resolution { payload: (Ballot(2, 0), vec![(3, "v".into())]) };
    r.receive(cmd.dup(), metas());
    let before = decided(&r);
    r.receive(cmd, metas());
    assert_eq!(decided(&r), before);
}

#[test]
fn resolved_slots_keep_their_first_decision() {
    let mut r = mk_replica(0, 3);
    r.receive(Command::Resolution { payload: (Ballot(1, 1), vec![(0, "first".into())]) }, metas());
    r.receive(Command::Resolution { payload: (Ballot(0, 0), vec![(0, "late".into())]) }, metas());
    r.receive(Command::Resolution { payload: (Ballot(7, 2), vec![(0, "later".into())]) }, metas());
    let d = decided(&r);
    assert_eq!(d, vec![(0u64, Bytes::from("first"))]);
}

#[test]
fn acceptor_promises_are_monotonic_and_preempt_lower_ballots() {
    let mut r = mk_replica(1, 3);
    r.receive(Command::Prepare { payload: Ballot(5, 0) }, metas());
    let out = r.drain_outbound();
    assert_eq!(out.len(), 1);
    assert!(matches!(out[0].command, Command::Promise { .. }));

    // a lower ballot is rejected with the promised one
    r.receive(Command::Prepare { payload: Ballot(3, 2) }, metas());
    let out = r.drain_outbound();
    assert_eq!(out.len(), 1);
    assert_eq!(out[0].to, 2);
    match &out[0].command {
        Command::Reject { payload: (node, proposed, preempted) } => {
            assert_eq!(*node, 1);
            assert_eq!(*proposed, Ballot(3, 2));
            assert_eq!(*preempted, Ballot(5, 0));
        },
        other => panic!("expected a reject, got {:?}", other),
    }

    // an equal ballot may still be accepted in phase 2
    r.receive(Command::Accept { payload: (Ballot(5, 0), vec![(0, "v".into())]) }, metas());
    let out = r.drain_outbound();
    assert_eq!(out.len(), 1);
    match &out[0].command {
        Command::Accepted { payload: (node, bal, slots) } => {
            assert_eq!(*node, 1);
            assert_eq!(*bal, Ballot(5, 0));
            assert_eq!(slots, &vec![0u64]);
        },
        other => panic!("expected an accepted, got {:?}", other),
    }
}

#[test]
fn quorum_sizes_are_majorities() {
    assert_eq!(mk_replica(0, 1).config.quorum_size(), 1);
    assert_eq!(mk_replica(0, 2).config.quorum_size(), 2);
    assert_eq!(mk_replica(0, 3).config.quorum_size(), 2);
    assert_eq!(mk_replica(0, 4).config.quorum_size(), 3);
    assert_eq!(mk_replica(0, 5).config.quorum_size(), 3);
}

#[test]
fn ballots_order_lexicographically() {
    assert!(Ballot(1, 2).lt(&Ballot(2, 0)));
    assert!(Ballot(1, 2).lt(&Ballot(1, 3)));
    assert!(!Ballot(1, 2).lt(&Ballot(1, 2)));
    assert!(Ballot(1, 2).le(&Ballot(1, 2)));
    assert!(!Ballot(2, 0).le(&Ballot(1, 9)));
}

#[test]
fn proposals_forward_to_the_known_leader() {
    let mut r = mk_replica(2, 3);
    // node 2 promised ballot [4,0], so node 0 is its leader hint
    r.receive(Command::Prepare { payload: Ballot(4, 0) }, metas());
    r.drain_outbound();
    r.receive(Command::Proposal { payload: "fwd".into() }, metas());
    let out = r.drain_outbound();
    assert_eq!(out.len(), 1);
    assert_eq!(out[0].to, 0);
    assert_eq!(out[0].command, Command::Proposal { payload: Bytes::from("fwd") });
}

#[test]
fn promise_reports_resolved_and_accepted_state() {
    let mut r = mk_replica(1, 3);
    // slot 0 already decided; slot 1 accepted under ballot [2,0]
    r.receive(Command::Resolution { payload: (Ballot(1, 0), vec![(0, "done".into())]) }, metas());
    r.receive(Command::Accept { payload: (Ballot(2, 0), vec![(1, "mid".into())]) }, metas());
    r.drain_outbound();

    // a later PREPARE wins and must learn both
    r.receive(Command::Prepare { payload: Ballot(3, 2) }, metas());
    let out = r.drain_outbound();
    assert_eq!(out.len(), 1);
    assert_eq!(out[0].to, 2);
    match &out[0].command {
        Command::Promise { payload: (node, bal, accepted) } => {
            assert_eq!(*node, 1);
            assert_eq!(*bal, Ballot(3, 2));
            assert_eq!(
                accepted,
                &vec![
                    (0u64, Ballot(1, 0), Bytes::from("done")),
                    (1u64, Ballot(2, 0), Bytes::from("mid")),
                ]
            );
        },
        other => panic!("expected a promise, got {:?}", other),
    }
}

#[test]
fn stalled_leader_resends_its_inflight_accept() {
    let mut rs: Vec<PaxosReplica> = (0..3).map(|i| mk_replica(i, 3)).collect();

    // node 0 becomes leader and proposes "v"; the ACCEPT broadcast is lost
    rs[0].start_leadership(metas());
    pump(&mut rs, &[]);
    assert!(rs[0].is_leader());
    rs[0].receive(Command::Proposal { payload: "v".into() }, metas());
    rs[0].drain_outbound(); // every ACCEPT for "v" is lost
    rs[1].drain_outbound();
    rs[2].drain_outbound();
    assert!(decided(&rs[0]).iter().all(|(_, val)| val != &Bytes::from("v")));

    // after a bounded lapse the leader re-drives the blocking slot with
    // the same value rather than giving it up
    for _ in 0..25 {
        rs[0].tick(metas());
    }
    pump(&mut rs, &[]);
    let d = decided(&rs[0]);
    assert!(d.iter().any(|(_, val)| val == &Bytes::from("v")));
}

#[test]
fn stalled_follower_asks_a_peer_for_the_missing_slot() {
    let mut r = mk_replica(2, 3);
    // a future resolution leaves unresolved slots below it
    r.receive(Command::Resolution { payload: (Ballot(1, 0), vec![(5, "x".into())]) }, metas());
    r.drain_outbound();

    // after the catchup lapse a tick asks one peer for the blocking slot
    let mut asked = false;
    for _ in 0..12 {
        r.tick(metas());
        for env in r.drain_outbound() {
            if let Command::Catchup { payload: (node, slots) } = &env.command {
                assert_eq!(*node, 2);
                assert_eq!(slots, &vec![0u64]);
                asked = true;
            }
        }
    }
    assert!(asked);
}
