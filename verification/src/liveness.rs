//! Leader-election liveness: a deterministic timer over a logical clock in
//! nanoseconds, and a wrapper that proposes leadership when the cluster
//! falls silent.

use vstd::prelude::*;
use crate::Replica;
use crate::commands::{Command, CommandMetas, Receiver};
use crate::window::DecisionSet;

verus! {

/// The default leader-election timeout: two seconds, in nanoseconds.
pub const LEADER_ELECTION_TIMEOUT: u64 = 2_000_000_000;

/// A deadline polled against a logical clock: the instant of the latest
/// message, if any, and a timeout length.
pub struct Timeout {
    /// The logical clock, in nanoseconds; the host advances it.
    pub now: u64,
    /// When the latest message arrived, if one did since the last clear.
    pub latest_message: Option<u64>,
    /// The timeout length in nanoseconds.
    pub timeout: u64,
}

impl Timeout {
    /// A full timeout has passed since the latest message.
    pub open spec fn lapsed_spec(&self) -> bool {
        match self.latest_message {
            None => false,
            Some(l) => self.now > l && self.now - l > self.timeout,
        }
    }

    /// Half the timeout has passed since the latest message.
    pub open spec fn near_spec(&self) -> bool {
        match self.latest_message {
            None => false,
            Some(l) => self.now > l && self.now - l > self.timeout / 2,
        }
    }

    /// A cleared timer with the given timeout length.
    pub fn new(timeout: u64) -> (t: Timeout)
        ensures
            t.now == 0,
            t.latest_message is None,
            t.timeout == timeout,
    {
        Timeout { now: 0, latest_message: None, timeout }
    }

    /// Disarms the timer until the next bump.
    pub fn clear(&mut self)
        ensures
            final(self).latest_message is None,
            final(self).now == old(self).now,
            final(self).timeout == old(self).timeout,
    {
        self.latest_message = None;
    }

    /// Records a message at the current instant.
    pub fn bump(&mut self)
        ensures
            final(self).latest_message == Some(old(self).now),
            final(self).now == old(self).now,
            final(self).timeout == old(self).timeout,
    {
        self.latest_message = Some(self.now);
    }

    /// Advances the logical clock by `elapsed` nanoseconds.
    pub fn advance(&mut self, elapsed: u64)
        ensures
            final(self).now == if old(self).now + elapsed <= u64::MAX {
                old(self).now + elapsed
            } else {
                u64::MAX as int
            },
            final(self).latest_message == old(self).latest_message,
            final(self).timeout == old(self).timeout,
    {
        self.now = if self.now <= u64::MAX - elapsed {
            self.now + elapsed
        } else {
            u64::MAX
        };
    }

    /// Whether a full timeout has passed without a message: a follower's
    /// cue to seek leadership.
    pub fn lapsed(&self) -> (r: bool)
        ensures
            r == self.lapsed_spec(),
    {
        match &self.latest_message {
            None => false,
            Some(l) => self.now > *l && self.now - *l > self.timeout,
        }
    }

    /// Whether half the timeout has passed without a message: the leader's
    /// cue to re-assert itself.
    pub fn near(&self) -> (r: bool)
        ensures
            r == self.near_spec(),
    {
        match &self.latest_message {
            None => false,
            Some(l) => self.now > *l && self.now - *l > self.timeout / 2,
        }
    }

    /// Jumps the clock just past `d` nanoseconds from now, for driving
    /// timeouts deterministically under test.
    pub fn fast_forward(&mut self, d: u64)
        ensures
            final(self).now == if old(self).now + d + 1 <= u64::MAX {
                old(self).now + d + 1
            } else {
                u64::MAX as int
            },
            final(self).latest_message == old(self).latest_message,
            final(self).timeout == old(self).timeout,
    {
        if d <= u64::MAX - 1 {
            self.advance(d + 1);
        } else {
            self.advance(u64::MAX);
            self.advance(1);
        }
    }
}

/// Adds liveness to a replica by taking leadership when a timeout passes
/// without traffic from peers.
pub struct Liveness<R: Replica> {
    /// The wrapped replica.
    pub inner: R,
    /// The leader-election timer.
    pub leader_election: Timeout,
}

impl<R: Replica> Liveness<R> {
    /// Wraps a replica with the default leader-election timeout.
    pub fn new(inner: R) -> (l: Liveness<R>)
        ensures
            l.inner == inner,
            l.leader_election.now == 0,
            l.leader_election.latest_message is None,
            l.leader_election.timeout == LEADER_ELECTION_TIMEOUT,
    {
        Liveness { inner, leader_election: Timeout::new(LEADER_ELECTION_TIMEOUT) }
    }

    /// Advances the liveness clock by `elapsed` nanoseconds.
    pub fn advance_clock(&mut self, elapsed: u64)
        ensures
            final(self).inner == old(self).inner,
            final(self).leader_election.latest_message == old(self).leader_election.latest_message,
            final(self).leader_election.timeout == old(self).leader_election.timeout,
    {
        self.leader_election.advance(elapsed);
    }

    /// Jumps the liveness clock just past `d` nanoseconds from now.
    pub fn fast_forward(&mut self, d: u64)
        ensures
            final(self).inner == old(self).inner,
            final(self).leader_election.latest_message == old(self).leader_election.latest_message,
            final(self).leader_election.timeout == old(self).leader_election.timeout,
    {
        self.leader_election.fast_forward(d);
    }

    /// Whether the timer is armed: a message has bumped it since the last
    /// clear.
    pub fn timer_armed(&self) -> (r: bool)
        ensures
            r == (self.leader_election.latest_message is Some),
    {
        self.leader_election.latest_message.is_some()
    }
}

impl<R: Replica> Receiver for Liveness<R> {
    /// A liveness wrapper is well formed when its replica is.
    open spec fn wf(&self) -> bool {
        self.inner.wf()
    }

    /// Bumps the leader-election timer, unless the command is a `Proposal`
    /// or a `Catchup` (client traffic does not witness peer liveness), and
    /// hands the command to the wrapped replica.
    fn receive(&mut self, cmd: Command, cmd_metas: CommandMetas)
        ensures
            final(self).leader_election == if cmd.bumps_liveness_spec() {
                (Timeout {
                    latest_message: Some(old(self).leader_election.now),
                    ..old(self).leader_election
                })
            } else {
                old(self).leader_election
            },
    {
        match &cmd {
            Command::Proposal { .. } | Command::Catchup { .. } => {},
            _ => self.leader_election.bump(),
        }
        self.inner.receive(cmd, cmd_metas);
    }
}

impl<R: Replica> Liveness<R> {
    /// Whether a tick fires the election now: the sitting leader
    /// re-asserts itself after half the timeout, a follower seeks
    /// leadership after the full timeout.
    pub open spec fn election_fires(&self) -> bool {
        if self.inner.leader_spec() {
            self.leader_election.near_spec()
        } else {
            self.leader_election.lapsed_spec()
        }
    }
}

impl<R: Replica> Replica for Liveness<R> {
    /// Leadership is the wrapped replica's.
    open spec fn leader_spec(&self) -> bool {
        self.inner.leader_spec()
    }

    /// The decisions are the wrapped replica's.
    open spec fn decisions_spec(&self) -> Seq<(crate::Slot, Seq<u8>)> {
        self.inner.decisions_spec()
    }

    /// On a tick, leadership is proposed and the timer disarmed exactly
    /// when the election timeout has passed: the full timeout for a
    /// follower, half of it for the sitting leader re-asserting itself.
    /// Otherwise the timer is untouched. The wrapped replica is always
    /// ticked.
    fn tick(&mut self, cmd_metas: CommandMetas)
        ensures
            final(self).leader_election == if old(self).election_fires() {
                (Timeout { latest_message: None, ..old(self).leader_election })
            } else {
                old(self).leader_election
            },
            old(self).leader_election.lapsed_spec() ==> final(self).leader_election.latest_message
                is None,
    {
        let fires = if self.inner.is_leader() {
            self.leader_election.near()
        } else {
            self.leader_election.lapsed()
        };
        proof {
            if old(self).leader_election.lapsed_spec() {
                assert(old(self).leader_election.near_spec());
            }
        }
        if fires {
            self.inner.propose_leadership(cmd_metas.dup());
            self.leader_election.clear();
        }
        self.inner.tick(cmd_metas);
    }

    fn propose_leadership(&mut self, cmd_metas: CommandMetas) {
        self.inner.propose_leadership(cmd_metas);
    }

    fn is_leader(&self) -> (r: bool) {
        self.inner.is_leader()
    }

    fn decisions(&self) -> (d: DecisionSet) {
        self.inner.decisions()
    }
}

} // verus!
