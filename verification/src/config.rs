//! Cluster roster: the local node, its peers, and quorum arithmetic.

use vstd::prelude::*;
use vstd::seq_lib::*;
use vstd::set_lib::*;
use crate::{Ballot, NodeId};
use crate::value::bytes_clone;

verus! {

/// Opaque, transport-level addressing data attached to a peer; the core
/// carries it through to `Transport::send` unchanged.
#[derive(Debug)]
pub struct NodeMetadata(pub bytes::Bytes);

impl NodeMetadata {
    /// Copies the handle; the held bytes are shared, not duplicated.
    pub fn dup(&self) -> (r: NodeMetadata)
        ensures
            crate::value::bytes_view(r.0) == crate::value::bytes_view(self.0),
    {
        NodeMetadata(bytes_clone(&self.0))
    }
}

/// Immutable cluster roster: the local node's id and the other members,
/// each with its transport metadata.
pub struct Configuration {
    /// The local node's id.
    pub current: NodeId,
    /// The other members, each with its transport metadata.
    pub peers: Vec<(NodeId, NodeMetadata)>,
}

impl Configuration {
    /// The ids of the other members, in roster order.
    pub open spec fn peer_ids(&self) -> Seq<NodeId> {
        self.peers@.map_values(|p: (NodeId, NodeMetadata)| p.0)
    }

    /// A valid roster names each member once and does not list the local
    /// node among its peers.
    pub open spec fn wf(&self) -> bool {
        &&& self.peer_ids().no_duplicates()
        &&& !self.peer_ids().contains(self.current)
    }

    /// All members of the cluster, as a set.
    pub open spec fn members(&self) -> Set<NodeId> {
        self.peer_ids().to_set().insert(self.current)
    }

    /// The number of members in the cluster.
    pub open spec fn num_nodes_spec(&self) -> int {
        self.peers@.len() as int + 1
    }

    /// A majority of the cluster.
    pub open spec fn quorum_size_spec(&self) -> int {
        self.num_nodes_spec() / 2 + 1
    }

    /// Builds the roster. The peer list must name each peer once and must
    /// not contain the local node.
    pub fn new(current: NodeId, peers: Vec<(NodeId, NodeMetadata)>) -> (c: Configuration)
        requires
            peers@.map_values(|p: (NodeId, NodeMetadata)| p.0).no_duplicates(),
            !peers@.map_values(|p: (NodeId, NodeMetadata)| p.0).contains(current),
        ensures
            c.wf(),
            c.current_spec() == current,
            c.peer_ids() == peers@.map_values(|p: (NodeId, NodeMetadata)| p.0),
    {
        Configuration { current, peers }
    }

    /// The local node's id.
    pub open spec fn current_spec(&self) -> NodeId {
        self.current
    }

    /// Returns the local node's id.
    pub fn current(&self) -> (n: NodeId)
        ensures
            n == self.current_spec(),
    {
        self.current
    }

    /// Returns how many members the cluster has.
    pub fn num_nodes(&self) -> (n: usize)
        requires
            self.peers@.len() < usize::MAX,
        ensures
            n == self.num_nodes_spec(),
    {
        self.peers.len() + 1
    }

    /// Returns the quorum size: a majority of the members.
    pub fn quorum_size(&self) -> (q: usize)
        requires
            self.peers@.len() < usize::MAX,
        ensures
            q == self.quorum_size_spec(),
            1 <= q <= self.num_nodes_spec(),
    {
        (self.peers.len() + 1) / 2 + 1
    }

    /// Returns the ids of the other members, in roster order.
    pub fn peer_id_list(&self) -> (ids: Vec<NodeId>)
        ensures
            ids@ == self.peer_ids(),
    {
        let mut ids: Vec<NodeId> = Vec::new();
        let mut i: usize = 0;
        while i < self.peers.len()
            invariant
                i <= self.peers@.len(),
                ids@ == self.peer_ids().take(i as int),
            decreases self.peers@.len() - i,
        {
            ids.push(self.peers[i].0);
            i = i + 1;
        }
        proof {
            assert(self.peer_ids().take(self.peers@.len() as int) =~= self.peer_ids());
        }
        ids
    }

    /// Looks up the transport metadata of a member; `None` when the id is
    /// not a peer of the local node.
    pub fn peer_metadata(&self, node: NodeId) -> (r: Option<&NodeMetadata>)
        ensures
            r is Some <==> self.peer_ids().contains(node),
    {
        let mut i: usize = 0;
        while i < self.peers.len()
            invariant
                i <= self.peers@.len(),
                forall|j: int| 0 <= j < i ==> self.peer_ids()[j] != node,
            decreases self.peers@.len() - i,
        {
            if self.peers[i].0 == node {
                assert(self.peer_ids()[i as int] == node);
                return Some(&self.peers[i].1);
            }
            i = i + 1;
        }
        None
    }

    /// Decides whether an id names a member of the cluster.
    pub fn is_member(&self, node: NodeId) -> (r: bool)
        ensures
            r == self.members().contains(node),
    {
        proof {
            broadcast use vstd::seq_lib::group_seq_properties;
        }
        if node == self.current {
            return true;
        }
        let r = self.peer_metadata(node);
        proof {
            assert(self.peer_ids().contains(node) == self.peer_ids().to_set().contains(node));
        }
        r.is_some()
    }

    /// A ballot for the local node strictly greater than `observed`:
    /// `(observed.round + 1, current)`.
    pub fn next_ballot(&self, observed: Option<&Ballot>) -> (b: Ballot)
        requires
            observed matches Some(o) ==> o.0 < u32::MAX,
        ensures
            b.1 == self.current_spec(),
            observed matches Some(o) ==> o.lt_spec(b),
    {
        match observed {
            Some(o) => Ballot(o.0 + 1, self.current),
            None => Ballot(0, self.current),
        }
    }

    /// Quorum intersection: any two quorums of a valid roster share at
    /// least one member.
    pub proof fn lemma_quorum_intersection(&self, q1: Set<NodeId>, q2: Set<NodeId>)
        requires
            self.wf(),
            q1.subset_of(self.members()),
            q2.subset_of(self.members()),
            q1.len() >= self.quorum_size_spec(),
            q2.len() >= self.quorum_size_spec(),
        ensures
            exists|n: NodeId| q1.contains(n) && q2.contains(n),
    {
        broadcast use vstd::set::group_set_axioms;
        broadcast use vstd::seq_lib::seq_to_set_is_finite;

        self.peer_ids().unique_seq_to_set();
        assert(self.members().len() == self.num_nodes_spec());
        lemma_len_subset(q1, self.members());
        lemma_len_subset(q2, self.members());
        if !(exists|n: NodeId| q1.contains(n) && q2.contains(n)) {
            assert(q1.disjoint(q2));
            lemma_set_disjoint_lens(q1, q2);
            assert((q1 + q2).len() == q1.len() + q2.len());
            assert((q1 + q2).subset_of(self.members()));
            lemma_len_subset(q1 + q2, self.members());
            assert(q1.len() + q2.len() <= self.num_nodes_spec());
            assert(2 * self.quorum_size_spec() > self.num_nodes_spec());
            assert(false);
        }
    }
}

} // verus!
