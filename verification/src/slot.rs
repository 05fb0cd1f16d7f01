//! State of one slot of the log: untouched, open with active Paxos roles,
//! or resolved to a chosen value. Resolved slots are immutable.

use vstd::prelude::*;
use crate::{Ballot, NodeId};
use crate::value::{bytes_clone, bytes_view, Value};
use crate::roles::{
    accept_accepts, accept_step, count_matching, insert_node, learner_step, opt_accepted_view,
    opt_value_view, prepare_promises, prepare_step, proposer_accept_step, proposer_accepted_step,
    proposer_prepare_step, proposer_promise_step, AcceptReply, Acceptor, AcceptorV, Learner,
    PrepareReply, Proposer, ProposerV,
};

verus! {

/// Mathematical view of a slot.
#[verifier::ext_equal]
pub enum SlotV {
    /// Never touched.
    Empty,
    /// Active Paxos roles.
    Open {
        /// View of the slot's proposer.
        proposer: ProposerV,
        /// View of the slot's acceptor.
        acceptor: AcceptorV,
        /// View of the slot's learner.
        learner: Seq<(Ballot, NodeId)>,
    },
    /// A value has been chosen.
    Resolved {
        /// The ballot under which the value was chosen.
        ballot: Ballot,
        /// The chosen value; empty marks a no-op decision.
        value: Seq<u8>,
    },
}

/// State of one slot.
pub enum SlotState {
    /// Never touched.
    Empty,
    /// Active Paxos roles.
    Open {
        /// The slot's proposer.
        proposer: Proposer,
        /// The slot's acceptor.
        acceptor: Acceptor,
        /// The slot's learner.
        learner: Learner,
    },
    /// A value has been chosen.
    Resolved {
        /// The ballot under which the value was chosen.
        ballot: Ballot,
        /// The chosen value; empty marks a no-op decision.
        value: Value,
    },
}

impl View for SlotState {
    type V = SlotV;

    open spec fn view(&self) -> SlotV {
        match self {
            SlotState::Empty => SlotV::Empty,
            SlotState::Open { proposer, acceptor, learner } => SlotV::Open {
                proposer: proposer@,
                acceptor: acceptor@,
                learner: learner@,
            },
            SlotState::Resolved { ballot, value } => SlotV::Resolved {
                ballot: *ballot,
                value: bytes_view(*value),
            },
        }
    }
}

/// The slot transition on a resolution: a resolved slot is immutable,
/// anything else becomes resolved with the given pair.
pub open spec fn slot_resolve_step(s: SlotV, bal: Ballot, value: Seq<u8>) -> SlotV {
    match s {
        SlotV::Resolved { .. } => s,
        _ => SlotV::Resolved { ballot: bal, value },
    }
}

/// The slot transition on an ACCEPTED from `from` for `bal`: the learner
/// and the proposer count it; when the learner's tally for `bal` reaches
/// `quorum` and the slot's own acceptor accepted under `bal`, the slot
/// resolves with that value.
pub open spec fn slot_accepted_step(s: SlotV, from: NodeId, bal: Ballot, quorum: int) -> SlotV {
    match s {
        SlotV::Open { proposer, acceptor, learner } => {
            let learner2 = learner_step(learner, bal, from);
            let proposer2 = proposer_accepted_step(proposer, from, bal, quorum);
            match acceptor.accepted {
                Some(a) => if count_matching(learner2, bal) >= quorum && a.0 == bal {
                    SlotV::Resolved { ballot: bal, value: a.1 }
                } else {
                    SlotV::Open { proposer: proposer2, acceptor, learner: learner2 }
                },
                None => SlotV::Open { proposer: proposer2, acceptor, learner: learner2 },
            }
        },
        _ => s,
    }
}

/// The decision a slot view carries, when resolved.
pub open spec fn decision_of(v: SlotV) -> Option<(Ballot, Seq<u8>)> {
    match v {
        SlotV::Resolved { ballot, value } => Some((ballot, value)),
        _ => None,
    }
}

/// Whatever an open slot's own acceptor accepted under `bal` carries the
/// value `value`. Protocol safety gives this for the chosen value of a
/// resolution; here it is a hypothesis.
pub open spec fn slot_locally_consistent(s: SlotV, bal: Ballot, value: Seq<u8>) -> bool {
    match s {
        SlotV::Open { acceptor, .. } => match acceptor.accepted {
            Some(a) => a.0 == bal ==> a.1 == value,
            None => true,
        },
        _ => true,
    }
}

/// The view of a freshly opened slot: idle roles, nothing recorded.
pub open spec fn fresh_open_slot() -> SlotV {
    SlotV::Open {
        proposer: ProposerV {
            phase: crate::roles::ProposerPhase::Idle,
            ballot: None,
            promises: Seq::<NodeId>::empty(),
            highest_accepted: None,
            proposing: None,
            accepts: Seq::<NodeId>::empty(),
            rejects: Seq::<NodeId>::empty(),
            my_value: None,
        },
        acceptor: AcceptorV { promised: None, accepted: None },
        learner: Seq::<(Ballot, NodeId)>::empty(),
    }
}

/// Outcome of routing an ACCEPTED through a slot.
pub struct AcceptedOutcome {
    /// The learner quorum completed and the slot just resolved.
    pub newly_resolved: bool,
    /// The slot's own proposer just completed its accept quorum.
    pub proposer_quorum: bool,
}

impl SlotState {
    /// A slot is well formed when its open roles are.
    pub open spec fn wf(&self) -> bool {
        match self {
            SlotState::Open { proposer, acceptor, learner } => proposer.wf() && acceptor.wf()
                && learner.wf(),
            _ => true,
        }
    }

    /// The slot's decision, when resolved.
    pub open spec fn decision(&self) -> Option<(Ballot, Seq<u8>)> {
        match self@ {
            SlotV::Resolved { ballot, value } => Some((ballot, value)),
            _ => None,
        }
    }

    /// A fresh open slot with idle roles.
    pub fn open_fresh() -> (s: SlotState)
        ensures
            s@ == fresh_open_slot(),
            s.wf(),
    {
        SlotState::Open {
            proposer: Proposer::new(),
            acceptor: Acceptor::new(),
            learner: Learner::new(),
        }
    }

    /// Resolves the slot; a slot already resolved keeps its first decision.
    pub fn resolve(&mut self, bal: Ballot, value: Value)
        requires
            old(self).wf(),
        ensures
            final(self).wf(),
            final(self)@ == slot_resolve_step(old(self)@, bal, bytes_view(value)),
    {
        match self {
            SlotState::Resolved { .. } => {},
            _ => {
                *self = SlotState::Resolved { ballot: bal, value };
            },
        }
    }

    /// Routes a PREPARE to the slot. An open slot's acceptor answers; a
    /// resolved slot answers with its decision and does not change; an
    /// empty slot gives no answer.
    pub fn receive_prepare(&mut self, bal: Ballot) -> (r: Option<PrepareReply>)
        requires
            old(self).wf(),
        ensures
            final(self).wf(),
            old(self)@ matches SlotV::Open { proposer, acceptor, learner } ==> {
                &&& final(self)@ == (SlotV::Open {
                    proposer,
                    acceptor: prepare_step(acceptor, bal),
                    learner,
                })
                &&& prepare_promises(acceptor, bal) ==> (r matches Some(
                    PrepareReply::Promise { accepted },
                ) && opt_accepted_view(accepted) == acceptor.accepted)
                &&& !prepare_promises(acceptor, bal) ==> (r matches Some(
                    PrepareReply::Reject { preempted },
                ) && Some(preempted) == acceptor.promised)
            },
            old(self)@ matches SlotV::Resolved { ballot, value } ==> final(self)@ == old(self)@
                && (r matches Some(PrepareReply::Promise { accepted }) && opt_accepted_view(
                accepted,
            ) == Some((ballot, value))),
            old(self)@ is Empty ==> final(self)@ == old(self)@ && r is None,
    {
        match self {
            SlotState::Empty => None,
            SlotState::Open { acceptor, .. } => Some(acceptor.receive_prepare(bal)),
            SlotState::Resolved { ballot, value } => Some(
                PrepareReply::Promise { accepted: Some((*ballot, bytes_clone(value))) },
            ),
        }
    }

    /// Routes an ACCEPT to the slot. An open slot's acceptor answers; a
    /// resolved slot answers `Accepted` and does not change (the value is
    /// already chosen); an empty slot gives no answer.
    pub fn receive_accept(&mut self, bal: Ballot, value: Value) -> (r: Option<AcceptReply>)
        requires
            old(self).wf(),
        ensures
            final(self).wf(),
            old(self)@ matches SlotV::Open { proposer, acceptor, learner } ==> {
                &&& final(self)@ == (SlotV::Open {
                    proposer,
                    acceptor: accept_step(acceptor, bal, bytes_view(value)),
                    learner,
                })
                &&& accept_accepts(acceptor, bal) ==> r == Some(AcceptReply::Accepted)
                &&& !accept_accepts(acceptor, bal) ==> (r matches Some(
                    AcceptReply::Reject { preempted },
                ) && Some(preempted) == acceptor.promised)
            },
            old(self)@ is Resolved ==> final(self)@ == old(self)@ && r == Some(
                AcceptReply::Accepted,
            ),
            old(self)@ is Empty ==> final(self)@ == old(self)@ && r is None,
    {
        match self {
            SlotState::Empty => None,
            SlotState::Open { acceptor, .. } => Some(acceptor.receive_accept(bal, value)),
            SlotState::Resolved { .. } => Some(AcceptReply::Accepted),
        }
    }

    /// Routes an ACCEPTED to the slot: the learner and the proposer count
    /// it; the slot resolves when the learner's quorum completes and its
    /// own acceptor holds the value accepted under that ballot.
    pub fn receive_accepted(&mut self, from: NodeId, bal: Ballot, quorum: usize) -> (r:
        AcceptedOutcome)
        requires
            old(self).wf(),
        ensures
            final(self).wf(),
            final(self)@ == slot_accepted_step(old(self)@, from, bal, quorum as int),
            r.newly_resolved == (old(self)@ is Open && final(self)@ is Resolved),
            r.proposer_quorum == (old(self)@ matches SlotV::Open { proposer, .. }
                && proposer.phase is Proposing && proposer.ballot == Some(bal) && insert_node(
                proposer.accepts,
                from,
            ).len() >= quorum),
    {
        let mut resolved_value: Option<Value> = None;
        let mut proposer_quorum = false;
        match self {
            SlotState::Open { proposer, acceptor, learner } => {
                learner.record_accepted(from, bal);
                proposer_quorum = proposer.receive_accepted(from, bal, quorum);
                let cnt = learner.count_for(bal);
                if cnt >= quorum {
                    match &acceptor.accepted {
                        Some(a) => {
                            if a.0 == bal {
                                resolved_value = Some(bytes_clone(&a.1));
                            }
                        },
                        None => {},
                    }
                }
            },
            _ => {},
        }
        match resolved_value {
            Some(v) => {
                *self = SlotState::Resolved { ballot: bal, value: v };
                AcceptedOutcome { newly_resolved: true, proposer_quorum }
            },
            None => AcceptedOutcome { newly_resolved: false, proposer_quorum },
        }
    }


    /// Enters phase 1 on this slot's proposer under `bal`; anything but an
    /// open slot is left unchanged.
    pub fn start_prepare(&mut self, bal: Ballot)
        requires
            old(self).wf(),
        ensures
            final(self).wf(),
            old(self)@ matches SlotV::Open { proposer, acceptor, learner } ==> final(self)@ == (
                SlotV::Open { proposer: proposer_prepare_step(proposer, bal), acceptor, learner }
            ),
            !(old(self)@ is Open) ==> final(self)@ == old(self)@,
    {
        match self {
            SlotState::Open { proposer, .. } => proposer.start_prepare(bal),
            _ => {},
        }
    }

    /// Enters phase 2 on this slot's proposer under `bal` with `value`;
    /// anything but an open slot is left unchanged.
    pub fn start_accept(&mut self, bal: Ballot, value: Value)
        requires
            old(self).wf(),
        ensures
            final(self).wf(),
            old(self)@ matches SlotV::Open { proposer, acceptor, learner } ==> final(self)@ == (
                SlotV::Open {
                    proposer: proposer_accept_step(proposer, bal, bytes_view(value)),
                    acceptor,
                    learner,
                }
            ),
            !(old(self)@ is Open) ==> final(self)@ == old(self)@,
    {
        match self {
            SlotState::Open { proposer, .. } => proposer.start_accept(bal, value),
            _ => {},
        }
    }

    /// Gives this slot's proposer the value it wants to place; anything
    /// but an open slot is left unchanged.
    pub fn set_value_hint(&mut self, value: Value)
        requires
            old(self).wf(),
        ensures
            final(self).wf(),
            old(self)@ matches SlotV::Open { proposer, acceptor, learner } ==> final(self)@ == (
                SlotV::Open {
                    proposer: (ProposerV { my_value: Some(bytes_view(value)), ..proposer }),
                    acceptor,
                    learner,
                }
            ),
            !(old(self)@ is Open) ==> final(self)@ == old(self)@,
    {
        match self {
            SlotState::Open { proposer, .. } => proposer.set_value_hint(value),
            _ => {},
        }
    }

    /// Routes a PROMISE to this slot's proposer; when its quorum completes
    /// the chosen value to propose is returned. Anything but an open slot
    /// is left unchanged and yields nothing.
    pub fn receive_promise(
        &mut self,
        from: NodeId,
        bal: Ballot,
        accepted: Option<(Ballot, Value)>,
        quorum: usize,
    ) -> (r: Option<Value>)
        requires
            old(self).wf(),
        ensures
            final(self).wf(),
            old(self)@ matches SlotV::Open { proposer, acceptor, learner } ==> final(self)@ == (
                SlotV::Open {
                    proposer: proposer_promise_step(
                        proposer,
                        from,
                        bal,
                        opt_accepted_view(accepted),
                        quorum as int,
                    ),
                    acceptor,
                    learner,
                }
            ),
            !(old(self)@ is Open) ==> final(self)@ == old(self)@ && r is None,
            r matches Some(v) ==> (final(self)@ matches SlotV::Open { proposer, .. }
                && proposer.phase is Proposing && proposer.proposing == Some(bytes_view(v))),
            r is Some <==> (match old(self)@ {
                SlotV::Open { proposer, .. } => proposer.phase is Preparing && proposer.ballot
                    == Some(bal) && insert_node(proposer.promises, from).len() >= quorum as int,
                _ => false,
            }),
    {
        match self {
            SlotState::Open { proposer, .. } => proposer.receive_promise(
                from,
                bal,
                accepted,
                quorum,
            ),
            _ => None,
        }
    }

    /// Routes a REJECT to this slot's proposer; returns whether a quorum
    /// of rejects has abandoned the ballot. Anything but an open slot is
    /// left unchanged.
    pub fn receive_reject(&mut self, from: NodeId, proposed: Ballot, quorum: usize) -> (r: bool)
        requires
            old(self).wf(),
        ensures
            final(self).wf(),
            old(self)@ matches SlotV::Open { proposer, acceptor, learner } ==> final(self)@ == (
                SlotV::Open {
                    proposer: crate::roles::proposer_reject_step(
                        proposer,
                        from,
                        proposed,
                        quorum as int,
                    ),
                    acceptor,
                    learner,
                }
            ),
            !(old(self)@ is Open) ==> final(self)@ == old(self)@ && !r,
            r == (match old(self)@ {
                SlotV::Open { proposer, .. } => (proposer.phase is Preparing || proposer.phase
                    is Proposing) && proposer.ballot == Some(proposed) && insert_node(
                    proposer.rejects,
                    from,
                ).len() >= quorum as int,
                _ => false,
            }),
    {
        match self {
            SlotState::Open { proposer, .. } => proposer.receive_reject(from, proposed, quorum),
            _ => false,
        }
    }

    /// The value this slot's proposer is driving in phase 2, if any.
    pub fn proposing_value(&self) -> (r: Option<Value>)
        ensures
            (match self@ {
                SlotV::Open { proposer, .. } => opt_value_view(r) == proposer.proposing,
                _ => r is None,
            }),
    {
        match self {
            SlotState::Open { proposer, .. } => match &proposer.proposing {
                Some(v) => Some(bytes_clone(v)),
                None => None,
            },
            _ => None,
        }
    }

    /// A resolved slot is immutable: no resolution and no ACCEPTED changes
    /// its decision.
    pub proof fn lemma_resolved_immutable(
        s: SlotV,
        from: NodeId,
        bal: Ballot,
        value: Seq<u8>,
        quorum: int,
    )
        requires
            s is Resolved,
        ensures
            slot_resolve_step(s, bal, value) == s,
            slot_accepted_step(s, from, bal, quorum) == s,
    {
    }

    /// Re-delivering the same resolution leaves the slot unchanged.
    pub proof fn lemma_resolve_idempotent(s: SlotV, bal: Ballot, value: Seq<u8>)
        ensures
            slot_resolve_step(slot_resolve_step(s, bal, value), bal, value) == slot_resolve_step(
                s,
                bal,
                value,
            ),
    {
    }

    /// A resolution for `(bal, value)` and an ACCEPTED for `bal` commute:
    /// the slot ends resolved with the same decision either way. The one
    /// hypothesis is local consistency: whatever the slot's own acceptor
    /// accepted under `bal` is that same `value`.
    pub proof fn lemma_resolution_accepted_commute(
        s: SlotV,
        from: NodeId,
        bal: Ballot,
        value: Seq<u8>,
        quorum: int,
    )
        requires
            slot_locally_consistent(s, bal, value),
        ensures
            slot_resolve_step(slot_accepted_step(s, from, bal, quorum), bal, value)
                == slot_accepted_step(slot_resolve_step(s, bal, value), from, bal, quorum),
    {
    }
}

} // verus!
