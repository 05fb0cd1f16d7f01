//! Liveness tests: which commands bump the leader-election timer, and when
//! a tick makes a leader or a follower propose leadership.

use bytes::Bytes;
use paxos_core::commands::{Command, CommandMetas, Receiver};
use paxos_core::liveness::{Liveness, Timeout};
use paxos_core::window::DecisionSet;
use paxos_core::{Ballot, Replica};

#[derive(Default)]
struct Inner {
    commands: Vec<Command>,
    leader: bool,
    proposed_leadership: bool,
}

impl Receiver for Inner {
    fn receive(&mut self, cmd: Command, _cmd_metas: CommandMetas) {
        self.commands.push(cmd);
    }
}

impl Replica for Inner {
    fn propose_leadership(&mut self, _cmd_metas: CommandMetas) {
        self.proposed_leadership = true;
    }

    fn is_leader(&self) -> bool {
        self.leader
    }

    fn tick(&mut self, _cmd_metas: CommandMetas) {}

    fn decisions(&self) -> DecisionSet {
        panic!();
    }
}

#[test]
fn propose_does_not_bump_timeout() {
    let mut live = Liveness::new(Inner::default());
    let cmd_metas = CommandMetas("".into());

    live.receive(Command::Proposal { payload: ("123".into()) }, cmd_metas);

    // does not bump leadership
    assert!(live.leader_election.latest_message.is_none());
    assert_eq!(Command::Proposal { payload: ("123".into()) }, live.inner.commands[0]);
}

#[test]
fn commands_bump_timeout() {
    let mut live = Liveness::new(Inner::default());
    let cmd_metas = CommandMetas("".into());

    live.receive(Command::Prepare { payload: (Ballot(2, 3)) }, cmd_metas.dup());
    assert!(live.leader_election.latest_message.is_some());
    assert_eq!(live.inner.commands[0], Command::Prepare { payload: (Ballot(2, 3)) });

    let mut live = Liveness::new(Inner::default());
    live.receive(Command::Promise { payload: (0, Ballot(2, 3), vec![]) }, cmd_metas.dup());
    assert!(live.leader_election.latest_message.is_some());
    assert_eq!(live.inner.commands[0], Command::Promise { payload: (0, Ballot(2, 3), vec![]) });

    let mut live = Liveness::new(Inner::default());
    live.receive(Command::Reject { payload: (4, Ballot(0, 1), Ballot(4, 5)) }, cmd_metas.dup());
    assert!(live.leader_election.latest_message.is_some());
    assert_eq!(live.inner.commands[0], Command::Reject { payload: (4, Ballot(0, 1), Ballot(4, 5)) });

    let mut live = Liveness::new(Inner::default());
    live.receive(Command::Accept { payload: (Ballot(4, 5), vec![]) }, cmd_metas.dup());
    assert!(live.leader_election.latest_message.is_some());
    assert_eq!(live.inner.commands[0], Command::Accept { payload: (Ballot(4, 5), vec![]) });

    let mut live = Liveness::new(Inner::default());
    live.receive(Command::Accepted { payload: (5, Ballot(1, 2), vec![2, 3, 4]) }, cmd_metas.dup());
    assert!(live.leader_election.latest_message.is_some());
    assert_eq!(
        live.inner.commands[0],
        Command::Accepted { payload: (5, Ballot(1, 2), vec![2, 3, 4]) }
    );

    let mut live = Liveness::new(Inner::default());
    live.receive(Command::Resolution { payload: (Ballot(1, 2), vec![]) }, cmd_metas.dup());
    assert!(live.leader_election.latest_message.is_some());
    assert_eq!(live.inner.commands[0], Command::Resolution { payload: (Ballot(1, 2), vec![]) });
}

#[test]
fn tick_leader() {
    let mut live = Liveness::new(Inner::default());
    let cmd_metas = CommandMetas("".into());

    live.inner.leader = true;
    assert!(live.is_leader());
    live.tick(cmd_metas.dup());
    assert!(!live.inner.proposed_leadership);

    // receive a message
    live.receive(Command::Accepted { payload: (5, Ballot(1, 2), vec![2, 3, 4]) }, cmd_metas.dup());
    live.tick(cmd_metas.dup());
    assert!(!live.inner.proposed_leadership);

    // jump forward half the timeout duration: enough for a leader
    live.leader_election.fast_forward(1_000_000_000);

    live.tick(cmd_metas);
    assert!(live.inner.proposed_leadership);
}

#[test]
fn tick_follower() {
    let mut live = Liveness::new(Inner::default());
    let cmd_metas = CommandMetas("".into());

    live.inner.leader = false;
    assert!(!live.is_leader());
    live.tick(cmd_metas.dup());
    assert!(!live.inner.proposed_leadership);

    // receive a message
    live.receive(Command::Resolution { payload: (Ballot(0, 1), vec![]) }, cmd_metas.dup());
    live.tick(cmd_metas.dup());
    assert!(!live.inner.proposed_leadership);

    // jump forward the full timeout duration
    live.leader_election.fast_forward(2_000_000_000);

    live.tick(cmd_metas);
    assert!(live.inner.proposed_leadership);
}

#[test]
fn timeout_lapses_only_after_its_full_length() {
    let mut t = Timeout::new(100);
    assert!(!t.lapsed());
    assert!(!t.near());
    t.bump();
    t.advance(100);
    assert!(!t.lapsed());
    assert!(t.near());
    t.advance(1);
    assert!(t.lapsed());
    t.clear();
    assert!(!t.lapsed());
    assert!(!t.near());
    let _ = Bytes::new();
}
