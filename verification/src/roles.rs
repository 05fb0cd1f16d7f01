//! Per-slot Paxos role machines: the acceptor, the proposer and the learner
//! of one slot, and the slot state that composes them.
//!
//! Each transition's contract pins the new state and the reply exactly, over
//! the mathematical view of the role; the protocol laws are proved from
//! those views.

use vstd::prelude::*;
use crate::{Ballot, NodeId};
use crate::value::{bytes_clone, bytes_view, Value};

verus! {

/// Mathematical view of an acceptor.
#[verifier::ext_equal]
pub struct AcceptorV {
    /// The highest ballot promised, if any.
    pub promised: Option<Ballot>,
    /// The last accepted ballot and value, if any.
    pub accepted: Option<(Ballot, Seq<u8>)>,
}

/// Per-slot acceptor state.
pub struct Acceptor {
    /// The highest ballot this acceptor promised not to undercut.
    pub promised: Option<Ballot>,
    /// The ballot and value last accepted in this slot.
    pub accepted: Option<(Ballot, Value)>,
}

/// View of an optional `(ballot, value)` pair.
pub open spec fn opt_accepted_view(a: Option<(Ballot, Value)>) -> Option<(Ballot, Seq<u8>)> {
    match a {
        None => None,
        Some(p) => Some((p.0, bytes_view(p.1))),
    }
}

/// The acceptor transition on a PREPARE: promise `bal` when it is strictly
/// greater than everything promised so far, else leave the state unchanged.
pub open spec fn prepare_step(a: AcceptorV, bal: Ballot) -> AcceptorV {
    if prepare_promises(a, bal) {
        AcceptorV { promised: Some(bal), accepted: a.accepted }
    } else {
        a
    }
}

/// Whether a PREPARE under `bal` wins a promise: strictly greater than any
/// prior promise.
pub open spec fn prepare_promises(a: AcceptorV, bal: Ballot) -> bool {
    match a.promised {
        None => true,
        Some(p) => p.lt_spec(bal),
    }
}

/// The acceptor transition on an ACCEPT: accept when `bal` is at least the
/// promised ballot (equality is allowed), else leave the state unchanged.
pub open spec fn accept_step(a: AcceptorV, bal: Ballot, value: Seq<u8>) -> AcceptorV {
    if accept_accepts(a, bal) {
        AcceptorV { promised: Some(bal), accepted: Some((bal, value)) }
    } else {
        a
    }
}

/// Whether an ACCEPT under `bal` is taken: at least the promised ballot.
pub open spec fn accept_accepts(a: AcceptorV, bal: Ballot) -> bool {
    match a.promised {
        None => true,
        Some(p) => p.le_spec(bal),
    }
}

/// Reply of an acceptor to a PREPARE for one slot.
pub enum PrepareReply {
    /// The ballot was promised; carries the acceptor's accepted state so the
    /// proposer can adopt a previously accepted value.
    Promise {
        /// The accepted ballot and value of this slot, if any.
        accepted: Option<(Ballot, Value)>,
    },
    /// The ballot was preempted by a prior promise.
    Reject {
        /// The higher ballot that preempts the proposed one.
        preempted: Ballot,
    },
}

/// Reply of an acceptor to an ACCEPT for one slot.
pub enum AcceptReply {
    /// The value was accepted under the given ballot.
    Accepted,
    /// The ballot was preempted by a prior promise.
    Reject {
        /// The higher ballot that preempts the proposed one.
        preempted: Ballot,
    },
}

impl View for Acceptor {
    type V = AcceptorV;

    open spec fn view(&self) -> AcceptorV {
        AcceptorV { promised: self.promised, accepted: opt_accepted_view(self.accepted) }
    }
}

impl Acceptor {
    /// An acceptor is well formed when anything accepted is no greater than
    /// the promise that covers it.
    pub open spec fn wf(&self) -> bool {
        self@.accepted matches Some(a) ==> self@.promised matches Some(p) && a.0.le_spec(p)
    }

    /// A fresh acceptor: nothing promised, nothing accepted.
    pub fn new() -> (a: Acceptor)
        ensures
            a@.promised is None,
            a@.accepted is None,
            a.wf(),
    {
        Acceptor { promised: None, accepted: None }
    }

    /// Handles a PREPARE: promises `bal` when it is strictly greater than
    /// any prior promise and answers with the accepted state; else rejects
    /// with the preempting ballot. The promise never decreases.
    pub fn receive_prepare(&mut self, bal: Ballot) -> (r: PrepareReply)
        requires
            old(self).wf(),
        ensures
            final(self).wf(),
            final(self)@ == prepare_step(old(self)@, bal),
            old(self)@.promised matches Some(p) ==> final(self)@.promised matches Some(q)
                && p.le_spec(q),
            prepare_promises(old(self)@, bal) ==> (r matches PrepareReply::Promise { accepted }
                && opt_accepted_view(accepted) == old(self)@.accepted),
            !prepare_promises(old(self)@, bal) ==> (r matches PrepareReply::Reject { preempted }
                && Some(preempted) == old(self)@.promised),
    {
        let wins = match &self.promised {
            None => true,
            Some(p) => p.lt(&bal),
        };
        if wins {
            self.promised = Some(bal);
            let acc = match &self.accepted {
                None => None,
                Some(p) => Some((p.0, bytes_clone(&p.1))),
            };
            PrepareReply::Promise { accepted: acc }
        } else {
            let preempted = match &self.promised {
                Some(p) => *p,
                None => bal,
            };
            PrepareReply::Reject { preempted }
        }
    }

    /// Handles an ACCEPT: accepts when `bal` is at least the promised
    /// ballot (equality allowed), recording the value; else rejects with
    /// the preempting ballot. The promise never decreases.
    pub fn receive_accept(&mut self, bal: Ballot, value: Value) -> (r: AcceptReply)
        requires
            old(self).wf(),
        ensures
            final(self).wf(),
            final(self)@ == accept_step(old(self)@, bal, bytes_view(value)),
            old(self)@.promised matches Some(p) ==> final(self)@.promised matches Some(q)
                && p.le_spec(q),
            accept_accepts(old(self)@, bal) ==> r is Accepted,
            !accept_accepts(old(self)@, bal) ==> (r matches AcceptReply::Reject { preempted }
                && Some(preempted) == old(self)@.promised),
    {
        let takes = match &self.promised {
            None => true,
            Some(p) => p.le(&bal),
        };
        if takes {
            self.promised = Some(bal);
            self.accepted = Some((bal, value));
            AcceptReply::Accepted
        } else {
            let preempted = match &self.promised {
                Some(p) => *p,
                None => bal,
            };
            AcceptReply::Reject { preempted }
        }
    }

    /// Anything accepted sits at or below the promised ballot.
    pub proof fn lemma_accepted_le_promised(&self)
        requires
            self.wf(),
            self@.accepted is Some,
        ensures
            self@.promised is Some,
            self@.accepted->Some_0.0.le_spec(self@.promised->Some_0),
    {
    }

    /// Re-delivering the same PREPARE leaves the acceptor unchanged.
    pub proof fn lemma_prepare_idempotent(a: AcceptorV, bal: Ballot)
        ensures
            prepare_step(prepare_step(a, bal), bal) == prepare_step(a, bal),
    {
    }

    /// Re-delivering the same ACCEPT leaves the acceptor unchanged.
    pub proof fn lemma_accept_idempotent(a: AcceptorV, bal: Ballot, value: Seq<u8>)
        ensures
            accept_step(accept_step(a, bal, value), bal, value) == accept_step(a, bal, value),
    {
    }
}

/// Per-slot learner state: which nodes have reported accepting which
/// ballot. The pair list is kept free of duplicates, so it is a set.
pub struct Learner {
    /// `(ballot, node)` pairs seen in ACCEPTED messages for this slot.
    pub accepts: Vec<(Ballot, NodeId)>,
}

/// The learner transition: record that `from` accepted `bal`, once.
pub open spec fn learner_step(s: Seq<(Ballot, NodeId)>, bal: Ballot, from: NodeId) -> Seq<
    (Ballot, NodeId),
> {
    if s.contains((bal, from)) {
        s
    } else {
        s.push((bal, from))
    }
}

/// How many distinct nodes a pair sequence records for `bal`.
pub open spec fn count_matching(s: Seq<(Ballot, NodeId)>, bal: Ballot) -> int
    decreases s.len(),
{
    if s.len() == 0 {
        0
    } else {
        count_matching(s.drop_last(), bal) + if s.last().0 == bal {
            1int
        } else {
            0int
        }
    }
}

impl View for Learner {
    type V = Seq<(Ballot, NodeId)>;

    open spec fn view(&self) -> Seq<(Ballot, NodeId)> {
        self.accepts@
    }
}

impl Learner {
    /// The pair list never repeats an entry.
    pub open spec fn wf(&self) -> bool {
        self.accepts@.no_duplicates()
    }

    /// A fresh learner: no accepts recorded.
    pub fn new() -> (l: Learner)
        ensures
            l@ == Seq::<(Ballot, NodeId)>::empty(),
            l.wf(),
    {
        Learner { accepts: Vec::new() }
    }

    /// Counts the nodes recorded as accepting `bal`.
    pub fn count_for(&self, bal: Ballot) -> (n: usize)
        ensures
            n == count_matching(self.accepts@, bal),
    {
        let mut n: usize = 0;
        let mut i: usize = 0;
        while i < self.accepts.len()
            invariant
                i <= self.accepts@.len(),
                n <= i,
                n == count_matching(self.accepts@.take(i as int), bal),
            decreases self.accepts@.len() - i,
        {
            proof {
                assert(self.accepts@.take(i as int + 1).drop_last() =~= self.accepts@.take(
                    i as int,
                ));
                assert(self.accepts@.take(i as int + 1).last() == self.accepts@[i as int]);
            }
            if self.accepts[i].0 == bal {
                n = n + 1;
            }
            i = i + 1;
        }
        proof {
            assert(self.accepts@.take(self.accepts@.len() as int) =~= self.accepts@);
        }
        n
    }

    /// Decides whether `(bal, from)` is already recorded.
    fn contains(&self, bal: Ballot, from: NodeId) -> (r: bool)
        ensures
            r == self@.contains((bal, from)),
    {
        let mut i: usize = 0;
        while i < self.accepts.len()
            invariant
                i <= self.accepts@.len(),
                forall|j: int| 0 <= j < i ==> self.accepts@[j] != (bal, from),
            decreases self.accepts@.len() - i,
        {
            if self.accepts[i].0 == bal && self.accepts[i].1 == from {
                proof {
                    assert(self.accepts@.contains((bal, from)));
                }
                return true;
            }
            i = i + 1;
        }
        proof {
            if self.accepts@.contains((bal, from)) {
                let j = choose|j: int|
                    0 <= j < self.accepts@.len() && self.accepts@[j] == (bal, from);
                assert(false);
            }
        }
        false
    }

    /// Records that `from` accepted `bal`; re-delivery leaves the learner
    /// unchanged.
    pub fn record_accepted(&mut self, from: NodeId, bal: Ballot)
        requires
            old(self).wf(),
        ensures
            final(self).wf(),
            final(self)@ == learner_step(old(self)@, bal, from),
            old(self)@.contains((bal, from)) ==> *final(self) == *old(self),
    {
        proof {
            broadcast use vstd::seq_lib::group_seq_properties;
        }
        if !self.contains(bal, from) {
            self.accepts.push((bal, from));
        }
    }

    /// Recording the same ACCEPTED twice is the same as recording it once.
    pub proof fn lemma_record_idempotent(s: Seq<(Ballot, NodeId)>, bal: Ballot, from: NodeId)
        ensures
            learner_step(learner_step(s, bal, from), bal, from) == learner_step(s, bal, from),
    {
        if !s.contains((bal, from)) {
            assert(s.push((bal, from))[s.len() as int] == (bal, from));
            assert(learner_step(s, bal, from).contains((bal, from)));
        }
    }
}

/// Phase of a per-slot proposer.
#[derive(Clone, Copy, PartialEq, Eq, Structural, Debug)]
pub enum ProposerPhase {
    /// Not driving this slot.
    Idle,
    /// Phase 1: collecting promises for the current ballot.
    Preparing,
    /// Phase 2: collecting accepts for the current ballot and value.
    Proposing,
    /// A quorum of accepts was observed; the slot's value is chosen.
    Resolved,
}

/// Mathematical view of a proposer.
#[verifier::ext_equal]
pub struct ProposerV {
    /// Current phase.
    pub phase: ProposerPhase,
    /// The ballot this proposer drives, when active.
    pub ballot: Option<Ballot>,
    /// Nodes that promised the current ballot, each once.
    pub promises: Seq<NodeId>,
    /// The highest accepted pair reported in promises, if any.
    pub highest_accepted: Option<(Ballot, Seq<u8>)>,
    /// The value proposed in phase 2, when in it.
    pub proposing: Option<Seq<u8>>,
    /// Nodes that accepted the current ballot, each once.
    pub accepts: Seq<NodeId>,
    /// Nodes that rejected the current ballot, each once.
    pub rejects: Seq<NodeId>,
    /// The value this proposer wants to place, if any.
    pub my_value: Option<Seq<u8>>,
}

/// Per-slot proposer state.
pub struct Proposer {
    /// Current phase.
    pub phase: ProposerPhase,
    /// The ballot this proposer drives, when active.
    pub ballot: Option<Ballot>,
    /// Nodes that promised the current ballot, each once.
    pub promises: Vec<NodeId>,
    /// The highest accepted pair reported in promises, if any.
    pub highest_accepted: Option<(Ballot, Value)>,
    /// The value proposed in phase 2, when in it.
    pub proposing: Option<Value>,
    /// Nodes that accepted the current ballot, each once.
    pub accepts: Vec<NodeId>,
    /// Nodes that rejected the current ballot, each once.
    pub rejects: Vec<NodeId>,
    /// The value this proposer wants to place, if any.
    pub my_value: Option<Value>,
}

/// View of an optional value.
pub open spec fn opt_value_view(v: Option<Value>) -> Option<Seq<u8>> {
    match v {
        None => None,
        Some(b) => Some(bytes_view(b)),
    }
}

/// Appends a node to a duplicate-free list unless it is already present.
pub open spec fn insert_node(s: Seq<NodeId>, n: NodeId) -> Seq<NodeId> {
    if s.contains(n) {
        s
    } else {
        s.push(n)
    }
}

/// Takes the accepted pair with the higher ballot.
pub open spec fn merge_accepted(
    h: Option<(Ballot, Seq<u8>)>,
    a: Option<(Ballot, Seq<u8>)>,
) -> Option<(Ballot, Seq<u8>)> {
    match a {
        None => h,
        Some(p) => match h {
            None => Some(p),
            Some(q) => if q.0.lt_spec(p.0) {
                Some(p)
            } else {
                h
            },
        },
    }
}

/// The value a proposer places when its prepare quorum completes: a
/// previously accepted value if any promise carried one, else its own
/// proposal, else an empty no-op value.
pub open spec fn choose_value(
    highest: Option<(Ballot, Seq<u8>)>,
    hint: Option<Seq<u8>>,
) -> Seq<u8> {
    match highest {
        Some(p) => p.1,
        None => match hint {
            Some(v) => v,
            None => Seq::<u8>::empty(),
        },
    }
}

/// The proposer transition on entering phase 1 under `bal`.
pub open spec fn proposer_prepare_step(p: ProposerV, bal: Ballot) -> ProposerV {
    ProposerV {
        phase: ProposerPhase::Preparing,
        ballot: Some(bal),
        promises: Seq::<NodeId>::empty(),
        highest_accepted: None,
        proposing: None,
        accepts: Seq::<NodeId>::empty(),
        rejects: Seq::<NodeId>::empty(),
        my_value: p.my_value,
    }
}

/// The proposer transition on entering phase 2 directly under `bal` with
/// `value` (the steady-state path of an established leader).
pub open spec fn proposer_accept_step(p: ProposerV, bal: Ballot, value: Seq<u8>) -> ProposerV {
    ProposerV {
        phase: ProposerPhase::Proposing,
        ballot: Some(bal),
        promises: p.promises,
        highest_accepted: p.highest_accepted,
        proposing: Some(value),
        accepts: Seq::<NodeId>::empty(),
        rejects: Seq::<NodeId>::empty(),
        my_value: p.my_value,
    }
}

/// The proposer transition on a PROMISE from `from` for `bal` carrying the
/// acceptor's accepted pair. Counted only in phase 1 under the same ballot;
/// on reaching `quorum` distinct promises the proposer moves to phase 2
/// with the chosen value.
pub open spec fn proposer_promise_step(
    p: ProposerV,
    from: NodeId,
    bal: Ballot,
    accepted: Option<(Ballot, Seq<u8>)>,
    quorum: int,
) -> ProposerV {
    if p.phase is Preparing && p.ballot == Some(bal) {
        let promises2 = insert_node(p.promises, from);
        let highest2 = merge_accepted(p.highest_accepted, accepted);
        if promises2.len() >= quorum {
            ProposerV {
                phase: ProposerPhase::Proposing,
                ballot: p.ballot,
                promises: promises2,
                highest_accepted: highest2,
                proposing: Some(choose_value(highest2, p.my_value)),
                accepts: Seq::<NodeId>::empty(),
                rejects: p.rejects,
                my_value: p.my_value,
            }
        } else {
            ProposerV { promises: promises2, highest_accepted: highest2, ..p }
        }
    } else {
        p
    }
}

/// The proposer transition on an ACCEPTED from `from` for `bal`. Counted
/// only in phase 2 under the same ballot; on reaching `quorum` distinct
/// accepts the proposer records the slot as resolved.
pub open spec fn proposer_accepted_step(
    p: ProposerV,
    from: NodeId,
    bal: Ballot,
    quorum: int,
) -> ProposerV {
    if p.phase is Proposing && p.ballot == Some(bal) {
        let accepts2 = insert_node(p.accepts, from);
        if accepts2.len() >= quorum {
            ProposerV { phase: ProposerPhase::Resolved, accepts: accepts2, ..p }
        } else {
            ProposerV { accepts: accepts2, ..p }
        }
    } else {
        p
    }
}

/// The proposer transition on a REJECT of `proposed` from `from`. Counted
/// while driving `proposed`; on reaching `quorum` distinct rejects the
/// ballot is abandoned and the proposer goes idle, keeping only the value
/// it wants to place.
pub open spec fn proposer_reject_step(
    p: ProposerV,
    from: NodeId,
    proposed: Ballot,
    quorum: int,
) -> ProposerV {
    if (p.phase is Preparing || p.phase is Proposing) && p.ballot == Some(proposed) {
        let rejects2 = insert_node(p.rejects, from);
        if rejects2.len() >= quorum {
            ProposerV {
                phase: ProposerPhase::Idle,
                ballot: None,
                promises: Seq::<NodeId>::empty(),
                highest_accepted: None,
                proposing: None,
                accepts: Seq::<NodeId>::empty(),
                rejects: Seq::<NodeId>::empty(),
                my_value: p.my_value,
            }
        } else {
            ProposerV { rejects: rejects2, ..p }
        }
    } else {
        p
    }
}

/// Merging reported accepted pairs keeps one of them and never drops a
/// higher ballot for a lower one: the pair a prepare quorum adopts carries
/// the highest ballot any promise reported.
pub proof fn lemma_merge_accepted_highest(
    h: Option<(Ballot, Seq<u8>)>,
    a: Option<(Ballot, Seq<u8>)>,
)
    ensures
        merge_accepted(h, a) is None <==> h is None && a is None,
        merge_accepted(h, a) matches Some(m) ==> Some(m) == h || Some(m) == a,
        h matches Some(x) ==> (merge_accepted(h, a) matches Some(m) && x.0.le_spec(m.0)),
        a matches Some(y) ==> (merge_accepted(h, a) matches Some(m) && y.0.le_spec(m.0)),
{
}

impl View for Proposer {
    type V = ProposerV;

    open spec fn view(&self) -> ProposerV {
        ProposerV {
            phase: self.phase,
            ballot: self.ballot,
            promises: self.promises@,
            highest_accepted: opt_accepted_view(self.highest_accepted),
            proposing: opt_value_view(self.proposing),
            accepts: self.accepts@,
            rejects: self.rejects@,
            my_value: opt_value_view(self.my_value),
        }
    }
}

/// Decides whether a node list contains `n`.
fn node_vec_contains(v: &Vec<NodeId>, n: NodeId) -> (r: bool)
    ensures
        r == v@.contains(n),
{
    let mut i: usize = 0;
    while i < v.len()
        invariant
            i <= v@.len(),
            forall|j: int| 0 <= j < i ==> v@[j] != n,
        decreases v@.len() - i,
    {
        if v[i] == n {
            proof {
                assert(v@.contains(n));
            }
            return true;
        }
        i = i + 1;
    }
    proof {
        if v@.contains(n) {
            let j = choose|j: int| 0 <= j < v@.len() && v@[j] == n;
            assert(false);
        }
    }
    false
}

/// Appends `n` unless present, keeping the list duplicate free.
fn node_vec_insert(v: &mut Vec<NodeId>, n: NodeId)
    requires
        old(v)@.no_duplicates(),
    ensures
        final(v)@ == insert_node(old(v)@, n),
        final(v)@.no_duplicates(),
        final(v)@.contains(n),
{
    proof {
        broadcast use vstd::seq_lib::group_seq_properties;
    }
    if !node_vec_contains(v, n) {
        v.push(n);
        proof {
            assert(v@[v@.len() - 1] == n);
            assert(v@.contains(n));
        }
    }
}

impl Proposer {
    /// A proposer is well formed when its node lists are duplicate free.
    pub open spec fn wf(&self) -> bool {
        &&& self.promises@.no_duplicates()
        &&& self.accepts@.no_duplicates()
        &&& self.rejects@.no_duplicates()
    }

    /// A fresh, idle proposer.
    pub fn new() -> (p: Proposer)
        ensures
            p@.phase is Idle,
            p@.ballot is None,
            p@.promises == Seq::<NodeId>::empty(),
            p@.highest_accepted is None,
            p@.proposing is None,
            p@.accepts == Seq::<NodeId>::empty(),
            p@.rejects == Seq::<NodeId>::empty(),
            p@.my_value is None,
            p.wf(),
    {
        Proposer {
            phase: ProposerPhase::Idle,
            ballot: None,
            promises: Vec::new(),
            highest_accepted: None,
            proposing: None,
            accepts: Vec::new(),
            rejects: Vec::new(),
            my_value: None,
        }
    }

    /// Sets the value this proposer wants to place.
    pub fn set_value_hint(&mut self, value: Value)
        requires
            old(self).wf(),
        ensures
            final(self).wf(),
            final(self)@ == (ProposerV { my_value: Some(bytes_view(value)), ..old(self)@ }),
    {
        self.my_value = Some(value);
    }

    /// Enters phase 1 under `bal`, clearing all tallies.
    pub fn start_prepare(&mut self, bal: Ballot)
        requires
            old(self).wf(),
        ensures
            final(self).wf(),
            final(self)@ == proposer_prepare_step(old(self)@, bal),
    {
        self.phase = ProposerPhase::Preparing;
        self.ballot = Some(bal);
        self.promises = Vec::new();
        self.highest_accepted = None;
        self.proposing = None;
        self.accepts = Vec::new();
        self.rejects = Vec::new();
    }

    /// Enters phase 2 directly under `bal` with `value`: the steady-state
    /// path of an established leader.
    pub fn start_accept(&mut self, bal: Ballot, value: Value)
        requires
            old(self).wf(),
        ensures
            final(self).wf(),
            final(self)@ == proposer_accept_step(old(self)@, bal, bytes_view(value)),
    {
        self.phase = ProposerPhase::Proposing;
        self.ballot = Some(bal);
        self.proposing = Some(value);
        self.accepts = Vec::new();
        self.rejects = Vec::new();
    }

    /// Counts a PROMISE; when the quorum completes, moves to phase 2 and
    /// returns the value to send in ACCEPT messages.
    pub fn receive_promise(
        &mut self,
        from: NodeId,
        bal: Ballot,
        accepted: Option<(Ballot, Value)>,
        quorum: usize,
    ) -> (r: Option<Value>)
        requires
            old(self).wf(),
        ensures
            final(self).wf(),
            final(self)@ == proposer_promise_step(
                old(self)@,
                from,
                bal,
                opt_accepted_view(accepted),
                quorum as int,
            ),
            r matches Some(v) ==> final(self)@.phase is Proposing && final(self)@.proposing
                == Some(bytes_view(v)),
            (old(self)@.phase is Preparing && old(self)@.ballot == Some(bal) && insert_node(
                old(self)@.promises,
                from,
            ).len() >= quorum) <==> r is Some,
    {
        if !(matches!(self.phase, ProposerPhase::Preparing)) {
            return None;
        }
        let cur = match &self.ballot {
            Some(b) => *b,
            None => {
                return None;
            },
        };
        if !(cur == bal) {
            return None;
        }
        node_vec_insert(&mut self.promises, from);
        if let Some(a) = accepted {
            let beats = match &self.highest_accepted {
                None => true,
                Some(h) => h.0.lt(&a.0),
            };
            if beats {
                self.highest_accepted = Some(a);
            }
        }
        if self.promises.len() >= quorum {
            self.phase = ProposerPhase::Proposing;
            self.accepts = Vec::new();
            let chosen = match &self.highest_accepted {
                Some(h) => bytes_clone(&h.1),
                None => match &self.my_value {
                    Some(v) => bytes_clone(v),
                    None => crate::value::bytes_new(),
                },
            };
            self.proposing = Some(bytes_clone(&chosen));
            Some(chosen)
        } else {
            None
        }
    }

    /// Counts an ACCEPTED; returns whether this one completed the quorum.
    pub fn receive_accepted(&mut self, from: NodeId, bal: Ballot, quorum: usize) -> (r: bool)
        requires
            old(self).wf(),
        ensures
            final(self).wf(),
            final(self)@ == proposer_accepted_step(old(self)@, from, bal, quorum as int),
            r == (old(self)@.phase is Proposing && old(self)@.ballot == Some(bal) && insert_node(
                old(self)@.accepts,
                from,
            ).len() >= quorum),
    {
        if !(matches!(self.phase, ProposerPhase::Proposing)) {
            return false;
        }
        let cur = match &self.ballot {
            Some(b) => *b,
            None => {
                return false;
            },
        };
        if !(cur == bal) {
            return false;
        }
        node_vec_insert(&mut self.accepts, from);
        if self.accepts.len() >= quorum {
            self.phase = ProposerPhase::Resolved;
            true
        } else {
            false
        }
    }

    /// Counts a REJECT of `proposed`; returns whether the quorum of
    /// rejects completed, which abandons the ballot.
    pub fn receive_reject(&mut self, from: NodeId, proposed: Ballot, quorum: usize) -> (r: bool)
        requires
            old(self).wf(),
        ensures
            final(self).wf(),
            final(self)@ == proposer_reject_step(old(self)@, from, proposed, quorum as int),
            r == ((old(self)@.phase is Preparing || old(self)@.phase is Proposing) && old(
                self,
            )@.ballot == Some(proposed) && insert_node(old(self)@.rejects, from).len() >= quorum),
    {
        let active = matches!(self.phase, ProposerPhase::Preparing)
            || matches!(self.phase, ProposerPhase::Proposing);
        if !active {
            return false;
        }
        let cur = match &self.ballot {
            Some(b) => *b,
            None => {
                return false;
            },
        };
        if !(cur == proposed) {
            return false;
        }
        node_vec_insert(&mut self.rejects, from);
        if self.rejects.len() >= quorum {
            self.phase = ProposerPhase::Idle;
            self.ballot = None;
            self.promises = Vec::new();
            self.highest_accepted = None;
            self.proposing = None;
            self.accepts = Vec::new();
            self.rejects = Vec::new();
            true
        } else {
            false
        }
    }

    /// Re-delivering the same PROMISE leaves the proposer unchanged.
    pub proof fn lemma_promise_idempotent(
        p: ProposerV,
        from: NodeId,
        bal: Ballot,
        accepted: Option<(Ballot, Seq<u8>)>,
        quorum: int,
    )
        requires
            quorum > 0,
        ensures
            proposer_promise_step(
                proposer_promise_step(p, from, bal, accepted, quorum),
                from,
                bal,
                accepted,
                quorum,
            ) == proposer_promise_step(p, from, bal, accepted, quorum),
    {
        let s1 = proposer_promise_step(p, from, bal, accepted, quorum);
        if p.phase is Preparing && p.ballot == Some(bal) {
            let promises2 = insert_node(p.promises, from);
            if promises2.len() >= quorum {
                assert(s1.phase is Proposing);
            } else {
                assert(merge_accepted(merge_accepted(p.highest_accepted, accepted), accepted)
                    == merge_accepted(p.highest_accepted, accepted));
                assert(insert_node(promises2, from) == promises2) by {
                    if !p.promises.contains(from) {
                        assert(promises2[promises2.len() - 1] == from);
                        assert(promises2.contains(from));
                    }
                }
            }
        }
    }

    /// Re-delivering the same ACCEPTED leaves the proposer unchanged.
    pub proof fn lemma_accepted_idempotent(p: ProposerV, from: NodeId, bal: Ballot, quorum: int)
        requires
            quorum > 0,
        ensures
            proposer_accepted_step(
                proposer_accepted_step(p, from, bal, quorum),
                from,
                bal,
                quorum,
            ) == proposer_accepted_step(p, from, bal, quorum),
    {
        if p.phase is Proposing && p.ballot == Some(bal) {
            let accepts2 = insert_node(p.accepts, from);
            if accepts2.len() >= quorum {
            } else {
                assert(insert_node(accepts2, from) == accepts2) by {
                    if !p.accepts.contains(from) {
                        assert(accepts2[accepts2.len() - 1] == from);
                        assert(accepts2.contains(from));
                    }
                }
            }
        }
    }
}

} // verus!
