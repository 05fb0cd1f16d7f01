//! Wire commands exchanged between replicas, their mathematical views, and
//! the capability interfaces (`Transport`, `Receiver`, `Commander`) through
//! which a replica talks to its host.

use vstd::prelude::*;
use crate::{Ballot, NodeId, Slot};
use crate::config::NodeMetadata;
use crate::value::{bytes_clone, bytes_view};

verus! {

/// Opaque correlation metadata attached to every inbound and outbound
/// command; the core forwards it unchanged.
#[derive(Debug)]
pub struct CommandMetas(pub bytes::Bytes);

impl CommandMetas {
    /// Copies the handle; the held bytes are shared, not duplicated.
    pub fn dup(&self) -> (r: CommandMetas)
        ensures
            bytes_view(r.0) == bytes_view(self.0),
    {
        CommandMetas(bytes_clone(&self.0))
    }
}

/// RPC commands sent between replicas.
#[derive(Debug, PartialEq, Eq)]
#[allow(inconsistent_fields)]
pub enum Command {
    /// Propose a value.
    Proposal { payload: bytes::Bytes },
    /// Phase 1a PREPARE message containing the proposed ballot.
    Prepare { payload: Ballot },
    /// Phase 1b PROMISE message containing the node that generated the
    /// promise, the ballot promised and all accepted values within the
    /// open window.
    Promise { payload: (NodeId, Ballot, Vec<(Slot, Ballot, bytes::Bytes)>) },
    /// Phase 2a ACCEPT message that contains the ballot and the proposed
    /// value of each slot. The ballot contains the node of the leader.
    Accept { payload: (Ballot, Vec<(Slot, bytes::Bytes)>) },
    /// REJECT of a peer's previous message, containing a higher ballot that
    /// preempts either a PREPARE or an ACCEPT.
    Reject { payload: (NodeId, Ballot, Ballot) },
    /// Phase 2b ACCEPTED message containing the acceptor that has accepted
    /// the proposal, the ballot, and the slots accepted under it.
    Accepted { payload: (NodeId, Ballot, Vec<Slot>) },
    /// Resolution of slots that have been accepted by a majority of
    /// acceptors. Resolutions may arrive out of slot order.
    Resolution { payload: (Ballot, Vec<(Slot, bytes::Bytes)>) },
    /// Request sent to a distinguished learner to catch up to the latest
    /// slot values.
    Catchup { payload: (NodeId, Vec<Slot>) },
}

/// Mathematical view of a `Command`, with byte payloads as sequences.
pub enum CommandV {
    /// View of `Command::Proposal`.
    Proposal { payload: Seq<u8> },
    /// View of `Command::Prepare`.
    Prepare { ballot: Ballot },
    /// View of `Command::Promise`.
    Promise { node: NodeId, ballot: Ballot, accepted: Seq<(Slot, Ballot, Seq<u8>)> },
    /// View of `Command::Accept`.
    Accept { ballot: Ballot, slot_values: Seq<(Slot, Seq<u8>)> },
    /// View of `Command::Reject`.
    Reject { node: NodeId, proposed: Ballot, preempted: Ballot },
    /// View of `Command::Accepted`.
    Accepted { node: NodeId, ballot: Ballot, slots: Seq<Slot> },
    /// View of `Command::Resolution`.
    Resolution { ballot: Ballot, slot_values: Seq<(Slot, Seq<u8>)> },
    /// View of `Command::Catchup`.
    Catchup { node: NodeId, slots: Seq<Slot> },
}

/// View of a list of `(slot, ballot, value)` triples.
pub open spec fn triples_view(v: Seq<(Slot, Ballot, bytes::Bytes)>) -> Seq<(Slot, Ballot, Seq<u8>)> {
    v.map_values(|t: (Slot, Ballot, bytes::Bytes)| (t.0, t.1, bytes_view(t.2)))
}

/// View of a list of `(slot, value)` pairs.
pub open spec fn pairs_view(v: Seq<(Slot, bytes::Bytes)>) -> Seq<(Slot, Seq<u8>)> {
    v.map_values(|t: (Slot, bytes::Bytes)| (t.0, bytes_view(t.1)))
}

impl View for Command {
    type V = CommandV;

    open spec fn view(&self) -> CommandV {
        match *self {
            Command::Proposal { payload } => CommandV::Proposal { payload: bytes_view(payload) },
            Command::Prepare { payload } => CommandV::Prepare { ballot: payload },
            Command::Promise { payload } => CommandV::Promise {
                node: payload.0,
                ballot: payload.1,
                accepted: triples_view(payload.2@),
            },
            Command::Accept { payload } => CommandV::Accept {
                ballot: payload.0,
                slot_values: pairs_view(payload.1@),
            },
            Command::Reject { payload } => CommandV::Reject {
                node: payload.0,
                proposed: payload.1,
                preempted: payload.2,
            },
            Command::Accepted { payload } => CommandV::Accepted {
                node: payload.0,
                ballot: payload.1,
                slots: payload.2@,
            },
            Command::Resolution { payload } => CommandV::Resolution {
                ballot: payload.0,
                slot_values: pairs_view(payload.1@),
            },
            Command::Catchup { payload } => CommandV::Catchup {
                node: payload.0,
                slots: payload.1@,
            },
        }
    }
}

/// Copies a list of `(slot, ballot, value)` triples, sharing the payloads.
pub fn dup_triples(v: &Vec<(Slot, Ballot, bytes::Bytes)>) -> (r: Vec<(Slot, Ballot, bytes::Bytes)>)
    ensures
        triples_view(r@) == triples_view(v@),
{
    let mut r: Vec<(Slot, Ballot, bytes::Bytes)> = Vec::new();
    let mut i: usize = 0;
    while i < v.len()
        invariant
            i <= v@.len(),
            r@.len() == i,
            forall|j: int| 0 <= j < i ==> (#[trigger] r@[j]).0 == v@[j].0,
            forall|j: int| 0 <= j < i ==> (#[trigger] r@[j]).1 == v@[j].1,
            forall|j: int| 0 <= j < i ==> bytes_view((#[trigger] r@[j]).2) == bytes_view(v@[j].2),
        decreases v@.len() - i,
    {
        let val = bytes_clone(&v[i].2);
        r.push((v[i].0, v[i].1, val));
        i = i + 1;
    }
    proof {
        assert(triples_view(r@) =~= triples_view(v@));
    }
    r
}

/// Copies a list of `(slot, value)` pairs, sharing the payloads.
pub fn dup_pairs(v: &Vec<(Slot, bytes::Bytes)>) -> (r: Vec<(Slot, bytes::Bytes)>)
    ensures
        pairs_view(r@) == pairs_view(v@),
{
    let mut r: Vec<(Slot, bytes::Bytes)> = Vec::new();
    let mut i: usize = 0;
    while i < v.len()
        invariant
            i <= v@.len(),
            r@.len() == i,
            forall|j: int| 0 <= j < i ==> (#[trigger] r@[j]).0 == v@[j].0,
            forall|j: int| 0 <= j < i ==> bytes_view((#[trigger] r@[j]).1) == bytes_view(v@[j].1),
        decreases v@.len() - i,
    {
        let val = bytes_clone(&v[i].1);
        r.push((v[i].0, val));
        i = i + 1;
    }
    proof {
        assert(pairs_view(r@) =~= pairs_view(v@));
    }
    r
}

/// Copies a list of slots.
pub fn dup_slots(v: &Vec<Slot>) -> (r: Vec<Slot>)
    ensures
        r@ == v@,
{
    let mut r: Vec<Slot> = Vec::new();
    let mut i: usize = 0;
    while i < v.len()
        invariant
            i <= v@.len(),
            r@ =~= v@.take(i as int),
        decreases v@.len() - i,
    {
        r.push(v[i]);
        i = i + 1;
    }
    proof {
        assert(v@.take(v@.len() as int) =~= v@);
    }
    r
}

impl Command {
    /// Copies the command, sharing the byte payloads.
    pub fn dup(&self) -> (c: Command)
        ensures
            c@ == self@,
    {
        match self {
            Command::Proposal { payload } => Command::Proposal { payload: bytes_clone(payload) },
            Command::Prepare { payload } => Command::Prepare { payload: *payload },
            Command::Promise { payload } => Command::Promise {
                payload: (payload.0, payload.1, dup_triples(&payload.2)),
            },
            Command::Accept { payload } => Command::Accept {
                payload: (payload.0, dup_pairs(&payload.1)),
            },
            Command::Reject { payload } => Command::Reject { payload: *payload },
            Command::Accepted { payload } => Command::Accepted {
                payload: (payload.0, payload.1, dup_slots(&payload.2)),
            },
            Command::Resolution { payload } => Command::Resolution {
                payload: (payload.0, dup_pairs(&payload.1)),
            },
            Command::Catchup { payload } => Command::Catchup {
                payload: (payload.0, dup_slots(&payload.1)),
            },
        }
    }

    /// A command bumps the leader-election timer unless it is a `Proposal`
    /// or a `Catchup`: those do not witness peer liveness.
    pub open spec fn bumps_liveness_spec(self) -> bool {
        !(self@ is Proposal || self@ is Catchup)
    }
}

/// An outbound command addressed to one node.
pub struct Envelope {
    /// The destination node.
    pub to: NodeId,
    /// The command to deliver.
    pub command: Command,
    /// Correlation metadata forwarded with the command.
    pub metas: CommandMetas,
}

impl Envelope {
    /// View of the envelope: destination and command view.
    pub open spec fn view_spec(&self) -> (NodeId, CommandV) {
        (self.to, self.command@)
    }
}

/// Sends commands to other replicas.
pub trait Transport {
    /// Sends one command to one node.
    fn send(
        &mut self,
        node: NodeId,
        node_metadata: &NodeMetadata,
        command: Command,
        command_metadata: CommandMetas,
    );
}

/// Receiver of Paxos commands.
pub trait Receiver {
    /// Well-formedness that receiving preserves; `true` unless a receiver
    /// carries an invariant of its own.
    open spec fn wf(&self) -> bool {
        true
    }

    /// Receives a command and reacts accordingly.
    fn receive(&mut self, command: Command, cmd_metas: CommandMetas)
        requires
            old(self).wf(),
        ensures
            final(self).wf(),
    ;
}

/// Receiver of Paxos commands, broken out into one reactor per command.
pub trait Commander {
    /// Well-formedness that every reactor preserves.
    open spec fn c_wf(&self) -> bool {
        true
    }

    /// Receives a proposal.
    fn proposal(&mut self, val: bytes::Bytes, cmd_metas: CommandMetas)
        requires
            old(self).c_wf(),
        ensures
            final(self).c_wf(),
    ;

    /// Receives a Phase 1a PREPARE message containing the proposed ballot.
    fn prepare(&mut self, bal: Ballot, cmd_metas: CommandMetas)
        requires
            old(self).c_wf(),
        ensures
            final(self).c_wf(),
    ;

    /// Receives a Phase 1b PROMISE message containing the node that
    /// generated the promise, the ballot promised and all accepted values
    /// within the open window.
    fn promise(
        &mut self,
        node: NodeId,
        bal: Ballot,
        accepted: Vec<(Slot, Ballot, bytes::Bytes)>,
        cmd_metas: CommandMetas,
    )
        requires
            old(self).c_wf(),
        ensures
            final(self).c_wf(),
    ;

    /// Receives a Phase 2a ACCEPT message with the ballot and the proposed
    /// value of each slot.
    fn accept(&mut self, bal: Ballot, slot_values: Vec<(Slot, bytes::Bytes)>, cmd_metas: CommandMetas)
        requires
            old(self).c_wf(),
        ensures
            final(self).c_wf(),
    ;

    /// Receives a REJECT from a peer containing the higher ballot that
    /// preempts a PREPARE or an ACCEPT.
    fn reject(&mut self, node: NodeId, proposed: Ballot, preempted: Ballot, cmd_metas: CommandMetas)
        requires
            old(self).c_wf(),
        ensures
            final(self).c_wf(),
    ;

    /// Receives a Phase 2b ACCEPTED message naming the acceptor, the
    /// ballot, and the slots accepted under it.
    fn accepted(&mut self, node: NodeId, bal: Ballot, slots: Vec<Slot>, cmd_metas: CommandMetas)
        requires
            old(self).c_wf(),
        ensures
            final(self).c_wf(),
    ;

    /// Receives the final resolution of slots accepted by a majority.
    /// Resolutions may arrive out of slot order.
    fn resolution(&mut self, bal: Ballot, values: Vec<(Slot, bytes::Bytes)>, cmd_metas: CommandMetas)
        requires
            old(self).c_wf(),
        ensures
            final(self).c_wf(),
    ;

    /// Receives a request to catch a lagging node up on resolved slots.
    fn catchup(&mut self, node: NodeId, slots: Vec<Slot>, cmd_metas: CommandMetas)
        requires
            old(self).c_wf(),
        ensures
            final(self).c_wf(),
    ;
}

} // verus!
