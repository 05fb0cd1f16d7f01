//! The raw consensus core: one replica that receives wire commands, routes
//! them through the slots of its window, and queues the replies it owes.
//!
//! Two invariants carry the protocol's safety at this layer: resolved
//! slots are never reverted (`resolved_preserved` holds across every
//! handler), and the window-wide promise floor never decreases.

use vstd::prelude::*;
use crate::{Ballot, NodeId, Slot};
use crate::commands::{Command, CommandMetas, CommandV, Commander, Envelope, Receiver};
use crate::config::Configuration;
use crate::roles::{opt_accepted_view, opt_value_view, PrepareReply};
use crate::slot::{decision_of, slot_accepted_step, slot_resolve_step, SlotV};
use crate::value::{bytes_clone, bytes_view, Value};
use crate::window::{DecisionSet, SlotWindow, WINDOW_AHEAD};

verus! {

/// An open slot's acceptor never promises above the replica's floor.
pub open spec fn slot_under_floor(v: SlotV, floor: Option<Ballot>) -> bool {
    match v {
        SlotV::Open { acceptor, .. } => match acceptor.promised {
            Some(p) => floor matches Some(f) && p.le_spec(f),
            None => true,
        },
        _ => true,
    }
}

/// Nothing resolved in `a` is lost or changed in `b`.
pub open spec fn resolved_preserved(a: Seq<SlotV>, b: Seq<SlotV>) -> bool {
    &&& a.len() <= b.len()
    &&& forall|j: int| 0 <= j < a.len() && (#[trigger] a[j]) is Resolved ==> b[j] == a[j]
}

/// Decision stability: under `resolved_preserved`, a decided slot keeps
/// exactly its ballot and value. Together with quorum intersection this is
/// the local half of safety; that two nodes cannot decide a slot
/// differently is a property of whole traces and is exercised by tests.
pub proof fn lemma_decision_stable(a: Seq<SlotV>, b: Seq<SlotV>, j: int)
    requires
        resolved_preserved(a, b),
        0 <= j < a.len(),
        a[j] is Resolved,
    ensures
        decision_of(b[j]) == decision_of(a[j]),
        decision_of(a[j]) is Some,
{
}

/// `resolved_preserved` composes across successive states.
pub proof fn lemma_resolved_preserved_trans(a: Seq<SlotV>, b: Seq<SlotV>, c: Seq<SlotV>)
    requires
        resolved_preserved(a, b),
        resolved_preserved(b, c),
    ensures
        resolved_preserved(a, c),
{
}

/// The floor order on optional ballots: `None` sits below everything.
pub open spec fn floor_le(a: Option<Ballot>, b: Option<Ballot>) -> bool {
    match a {
        None => true,
        Some(x) => b matches Some(y) && x.le_spec(y),
    }
}

/// The views of queued envelopes: destination and command view.
pub open spec fn env_views(es: Seq<Envelope>) -> Seq<(NodeId, crate::commands::CommandV)> {
    es.map_values(|e: Envelope| (e.to, e.command@))
}

/// View of a promise's accepted list.
pub open spec fn triples_of(v: Seq<(Slot, Ballot, Value)>) -> Seq<(Slot, Ballot, Seq<u8>)> {
    crate::commands::triples_view(v)
}

/// The transition a window-wide PREPARE applies to one slot: an open
/// slot's acceptor steps; anything else stays.
pub open spec fn slot_prepare_sweep(v: SlotV, bal: Ballot) -> SlotV {
    match v {
        SlotV::Open { proposer, acceptor, learner } => SlotV::Open {
            proposer,
            acceptor: crate::roles::prepare_step(acceptor, bal),
            learner,
        },
        _ => v,
    }
}

/// The transition an ACCEPT applies to one listed slot: an open slot's
/// acceptor steps; anything else stays.
pub open spec fn slot_accept_sweep(v: SlotV, bal: Ballot, value: Seq<u8>) -> SlotV {
    match v {
        SlotV::Open { proposer, acceptor, learner } => SlotV::Open {
            proposer,
            acceptor: crate::roles::accept_step(acceptor, bal, value),
            learner,
        },
        _ => v,
    }
}

/// What a slot of window `w` holds once materialized: its present state
/// if touched, else a fresh open slot.
pub open spec fn materialized(w: Seq<SlotV>, s: Slot) -> SlotV {
    if s < w.len() && !(w[s as int] is Empty) {
        w[s as int]
    } else {
        crate::slot::fresh_open_slot()
    }
}

/// The transition a REJECT applies to one slot: an open slot's proposer
/// counts it; anything else stays.
pub open spec fn slot_reject_sweep(v: SlotV, from: NodeId, proposed: Ballot, quorum: int) -> SlotV {
    match v {
        SlotV::Open { proposer, acceptor, learner } => SlotV::Open {
            proposer: crate::roles::proposer_reject_step(proposer, from, proposed, quorum),
            acceptor,
            learner,
        },
        _ => v,
    }
}

/// Whether a REJECT from `from` completes a reject quorum on this slot's
/// proposer, abandoning the ballot it drives.
pub open spec fn slot_reject_aborts(v: SlotV, from: NodeId, proposed: Ballot, quorum: int) -> bool {
    match v {
        SlotV::Open { proposer, .. } => (proposer.phase is Preparing || proposer.phase
            is Proposing) && proposer.ballot == Some(proposed) && crate::roles::insert_node(
            proposer.rejects,
            from,
        ).len() >= quorum,
        _ => false,
    }
}

/// The accepted pair a slot reports in a PROMISE: what its acceptor
/// accepted while open, or its decision once resolved.
pub open spec fn accepted_of(v: SlotV) -> Option<(Ballot, Seq<u8>)> {
    match v {
        SlotV::Open { acceptor, .. } => acceptor.accepted,
        SlotV::Resolved { ballot, value } => Some((ballot, value)),
        SlotV::Empty => None,
    }
}

/// The highest round a replica has seen: in rejects, in its promise
/// floor, or in the ballot it drives.
pub open spec fn highest_round_of(r: PaxosReplica) -> u32 {
    let a = r.observed_round;
    let b = match r.promised {
        Some(p) => p.0,
        None => 0,
    };
    let c = match r.current_ballot {
        Some(p) => p.0,
        None => 0,
    };
    if a >= b && a >= c {
        a
    } else if b >= c {
        b
    } else {
        c
    }
}

/// Whether a PROMISE from `from` completes this slot's prepare quorum,
/// moving its proposer to phase 2.
pub open spec fn slot_promise_crosses(v: SlotV, from: NodeId, bal: Ballot, quorum: int) -> bool {
    match v {
        SlotV::Open { proposer, .. } => proposer.phase is Preparing && proposer.ballot == Some(
            bal,
        ) && crate::roles::insert_node(proposer.promises, from).len() >= quorum,
        _ => false,
    }
}

/// Whether an ACCEPTED from `from` completes this slot's accept quorum.
pub open spec fn slot_accepted_crossing(v: SlotV, from: NodeId, bal: Ballot, quorum: int) -> bool {
    match v {
        SlotV::Open { proposer, .. } => proposer.phase is Proposing && proposer.ballot == Some(
            bal,
        ) && crate::roles::insert_node(proposer.accepts, from).len() >= quorum,
        _ => false,
    }
}

/// The value this slot's proposer drives in phase 2, if any.
pub open spec fn slot_proposing_of(v: SlotV) -> Option<Seq<u8>> {
    match v {
        SlotV::Open { proposer, .. } => proposer.proposing,
        _ => None,
    }
}

/// The whole effect of one ACCEPTED on one slot: the tallies step, and a
/// completed accept quorum resolves the slot with the value its proposer
/// drives.
pub open spec fn slot_accepted_outcome(v: SlotV, from: NodeId, bal: Ballot, quorum: int) -> SlotV {
    let stepped = slot_accepted_step(v, from, bal, quorum);
    if slot_accepted_crossing(v, from, bal, quorum) && slot_proposing_of(v) is Some {
        slot_resolve_step(stepped, bal, slot_proposing_of(v)->Some_0)
    } else {
        stepped
    }
}

/// No slot is named twice.
pub open spec fn slots_distinct(s: Seq<Slot>) -> bool {
    forall|k1: int, k2: int| 0 <= k1 < k2 < s.len() ==> s[k1] != s[k2]
}

/// The last accepted entry a PROMISE lists for slot `j`, if any: a later
/// entry for the same slot overrides an earlier one.
pub open spec fn promise_entry_for(ts: Seq<(Slot, Ballot, Seq<u8>)>, j: Slot) -> Option<
    (Ballot, Seq<u8>),
>
    decreases ts.len(),
{
    if ts.len() == 0 {
        None
    } else if ts.last().0 == j {
        Some((ts.last().1, ts.last().2))
    } else {
        promise_entry_for(ts.drop_last(), j)
    }
}

/// The transition a PROMISE applies to one slot: its proposer counts it,
/// with the accepted entry the promise lists for that slot; anything else
/// stays.
pub open spec fn slot_promise_sweep(
    v: SlotV,
    from: NodeId,
    bal: Ballot,
    entry: Option<(Ballot, Seq<u8>)>,
    quorum: int,
) -> SlotV {
    match v {
        SlotV::Open { proposer, acceptor, learner } => SlotV::Open {
            proposer: crate::roles::proposer_promise_step(proposer, from, bal, entry, quorum),
            acceptor,
            learner,
        },
        _ => v,
    }
}

/// What one pair of a quorum ACCEPT may carry: a crossing slot with the
/// value its proposer adopted, or a fresh slot with a buffered proposal.
pub open spec fn started_pair_ok(
    r: PaxosReplica,
    node: NodeId,
    bal: Ballot,
    ts: Seq<(Slot, Ballot, Seq<u8>)>,
    p: (Slot, Seq<u8>),
) -> bool {
    ||| (p.0 < r.window@.len() && slot_promise_crosses(
        r.window@[p.0 as int],
        node,
        bal,
        r.config.quorum_size_spec(),
    ) && Some(p.1) == slot_proposing_of(
        slot_promise_sweep(
            r.window@[p.0 as int],
            node,
            bal,
            promise_entry_for(ts, p.0),
            r.config.quorum_size_spec(),
        ),
    ))
    ||| ((p.0 >= r.window@.len() || r.window@[p.0 as int] is Empty) && exists|l: int|
        0 <= l < r.buffered@.len() && p.1 == bytes_view(r.buffered@[l]))
}

/// The tick counter after one tick: incremented until it saturates.
pub open spec fn tick_count_after(r: PaxosReplica) -> int {
    if r.tick_count < u64::MAX {
        r.tick_count + 1
    } else {
        u64::MAX as int
    }
}

/// The stall count right after the watch update of one tick.
pub open spec fn stall_after(r: PaxosReplica) -> int {
    if crate::window::first_unresolved_spec(r.window@) == r.stalled_at as int {
        if r.stall_ticks < u64::MAX {
            r.stall_ticks + 1
        } else {
            u64::MAX as int
        }
    } else {
        0
    }
}

/// Whether a tick re-broadcasts the PREPARE of a leadership attempt still
/// in flight: a non-leader driving its own ballot, at the retransmit
/// cadence.
pub open spec fn tick_retransmits(r: PaxosReplica) -> bool {
    &&& !r.leading
    &&& r.current_ballot matches Some(b) && b.1 == r.config.current_spec()
    &&& tick_count_after(r) % (RETRANSMIT_TICKS as int) == 0
}

/// Whether a tick asks a peer for the first unresolved slot: a follower
/// stalled past the catchup lapse, with peers to ask.
pub open spec fn tick_requests_catchup(r: PaxosReplica) -> bool {
    &&& !r.leading
    &&& stall_after(r) >= CATCHUP_TICKS
    &&& crate::window::first_unresolved_spec(r.window@) < r.window@.len()
    &&& r.config.peer_ids().len() > 0
}

/// Whether a tick re-drives the first unresolved slot: the leader stalled
/// past the gap-fill lapse on a materialized slot.
pub open spec fn tick_redrives(r: PaxosReplica) -> bool {
    &&& r.leading
    &&& r.current_ballot is Some
    &&& stall_after(r) >= GAP_FILL_TICKS
    &&& crate::window::first_unresolved_spec(r.window@) < r.window@.len()
}

/// The value a stalled leader re-drives the blocking slot with: the value
/// its proposer already drives if any (a lost ACCEPT is re-sent), else an
/// empty no-op value to fill the hole.
pub open spec fn redrive_value(r: PaxosReplica) -> Seq<u8> {
    match slot_proposing_of(
        materialized(r.window@, crate::window::first_unresolved_spec(r.window@) as Slot),
    ) {
        Some(v) => v,
        None => Seq::<u8>::empty(),
    }
}

/// Every open slot's proposer drives `bal`: what holds of the whole
/// window once a leadership attempt has entered phase 1 everywhere.
pub open spec fn window_drives(w: Seq<SlotV>, bal: Ballot) -> bool {
    forall|j: int|
        0 <= j < w.len() ==> match #[trigger] w[j] {
            SlotV::Open { proposer, .. } => proposer.ballot == Some(bal),
            _ => true,
        }
}

/// The raw consensus core of one node.
pub struct PaxosReplica {
    /// The cluster roster.
    pub config: Configuration,
    /// The slots of the log.
    pub window: SlotWindow,
    /// The window-wide promise floor: the highest ballot promised in any
    /// PREPARE handled here; new slots inherit it.
    pub promised: Option<Ballot>,
    /// The ballot this node drives when seeking or holding leadership.
    pub current_ballot: Option<Ballot>,
    /// Whether this node currently considers itself the leader.
    pub leading: bool,
    /// Proposals buffered until leadership is established.
    pub buffered: Vec<Value>,
    /// Replies and broadcasts queued for the transport.
    pub outbound: Vec<Envelope>,
    /// The highest round seen in a REJECT's preempting ballot; the next
    /// leadership attempt starts above it.
    pub observed_round: u32,
    /// Ticks seen so far; drives retransmission and catchup cadence.
    pub tick_count: u64,
    /// The first unresolved slot as of the last tick.
    pub stalled_at: Slot,
    /// How many consecutive ticks that slot has stayed unresolved.
    pub stall_ticks: u64,
}

impl PaxosReplica {
    /// A replica is well formed when its roster and window are, the window
    /// decides with the roster's quorum, and no open slot's acceptor has
    /// promised above the replica's floor.
    pub open spec fn wf(&self) -> bool {
        &&& self.config.wf()
        &&& self.config.peers@.len() < usize::MAX - 1
        &&& self.window.wf()
        &&& self.window.quorum as int == self.config.quorum_size_spec()
        &&& forall|j: int|
            0 <= j < self.window@.len() ==> slot_under_floor(
                #[trigger] self.window@[j],
                self.promised,
            )
    }

    /// In a well-formed replica, anything any open slot's acceptor has
    /// accepted sits at or below that slot's promise, which sits at or
    /// below the replica's floor.
    pub proof fn lemma_accepted_below_floor(&self, j: int)
        requires
            self.wf(),
            0 <= j < self.window@.len(),
            self.window@[j] matches SlotV::Open { acceptor, .. } && acceptor.accepted is Some,
        ensures
            self.window@[j] matches SlotV::Open { acceptor, .. }
                && (acceptor.accepted->Some_0.0.le_spec(acceptor.promised->Some_0))
                && (self.promised matches Some(f) && acceptor.promised->Some_0.le_spec(f)),
    {
        assert(self.window@[j] == self.window.slots@[j]@);
        assert(self.window.slots@[j].wf());
        assert(slot_under_floor(self.window@[j], self.promised));
    }

    /// A fresh replica for the given roster: empty window, no floor, no
    /// leadership, nothing queued.
    pub fn new(config: Configuration) -> (r: PaxosReplica)
        requires
            config.wf(),
            config.peers@.len() < usize::MAX - 1,
        ensures
            r.wf(),
            r.config == config,
            r.window@.len() == 0,
            r.promised is None,
            r.current_ballot is None,
            !r.leading,
            r.buffered@.len() == 0,
            r.outbound@.len() == 0,
    {
        let quorum = config.quorum_size();
        PaxosReplica {
            config,
            window: SlotWindow::new(quorum),
            promised: None,
            current_ballot: None,
            leading: false,
            buffered: Vec::new(),
            outbound: Vec::new(),
            observed_round: 0,
            tick_count: 0,
            stalled_at: 0,
            stall_ticks: 0,
        }
    }

    /// Whom this node believes to lead: the issuer of the highest ballot
    /// it promised, if any.
    pub fn leader_hint(&self) -> (r: Option<NodeId>)
        ensures
            r == (match self.promised {
                Some(b) => Some(b.1),
                None => None::<NodeId>,
            }),
    {
        match &self.promised {
            Some(b) => Some(b.1),
            None => None,
        }
    }

    /// Queues one command for one node.
    fn send_to(&mut self, node: NodeId, command: Command, metas: CommandMetas)
        ensures
            *final(self) == (PaxosReplica { outbound: final(self).outbound, ..*old(self) }),
            final(self).outbound@ == old(self).outbound@.push(
                Envelope { to: node, command, metas },
            ),
            env_views(final(self).outbound@) =~= env_views(old(self).outbound@).push(
                (node, command@),
            ),
    {
        self.outbound.push(Envelope { to: node, command, metas });
    }

    /// Queues one command for every peer, in roster order.
    #[verifier::loop_isolation(false)]
    fn broadcast(&mut self, command: Command, metas: &CommandMetas)
        ensures
            *final(self) == (PaxosReplica { outbound: final(self).outbound, ..*old(self) }),
            old(self).outbound@.is_prefix_of(final(self).outbound@),
            env_views(final(self).outbound@) =~= env_views(old(self).outbound@)
                + old(self).config.peer_ids().map_values(
                |n: NodeId| (n, command@),
            ),
    {
        let peers = self.config.peer_id_list();
        let mut i: usize = 0;
        while i < peers.len()
            invariant
                i <= peers@.len(),
                peers@ == self.config.peer_ids(),
                *self == (PaxosReplica { outbound: self.outbound, ..*old(self) }),
                old(self).outbound@.is_prefix_of(self.outbound@),
                env_views(self.outbound@) =~= env_views(old(self).outbound@) + peers@.take(
                    i as int,
                ).map_values(|n: NodeId| (n, command@)),
            decreases peers@.len() - i,
        {
            let cmd = command.dup();
            let ghost prev = self.outbound@;
            self.outbound.push(Envelope { to: peers[i], command: cmd, metas: metas.dup() });
            proof {
                assert(env_views(self.outbound@) =~= env_views(prev).push(
                    (peers@[i as int], command@),
                ));
                assert(peers@.take(i as int + 1).map_values(|n: NodeId| (n, command@)) =~= peers@
                    .take(i as int).map_values(|n: NodeId| (n, command@)).push(
                    (peers@[i as int], command@),
                ));
            }
            i = i + 1;
        }
        proof {
            assert(peers@.take(peers@.len() as int) =~= peers@);
        }
    }

    /// Hands back everything queued for the transport, oldest first,
    /// leaving the queue empty.
    pub fn drain_outbound(&mut self) -> (r: Vec<Envelope>)
        ensures
            *final(self) == (PaxosReplica { outbound: final(self).outbound, ..*old(self) }),
            final(self).outbound@.len() == 0,
            r@ == old(self).outbound@,
    {
        let mut out: Vec<Envelope> = Vec::new();
        core::mem::swap(&mut out, &mut self.outbound);
        out
    }

    /// Handles a resolution: every listed slot within reach of the window
    /// becomes resolved with its listed value; slots already resolved keep
    /// their first decision, and slots too far ahead of the window are
    /// dropped for catchup to fill later.
    pub fn on_resolution(&mut self, bal: Ballot, values: Vec<(Slot, Value)>, _metas: CommandMetas)
        requires
            old(self).wf(),
        ensures
            final(self).wf(),
            resolved_preserved(old(self).window@, final(self).window@),
            *final(self) == (PaxosReplica { window: final(self).window, ..*old(self) }),
            forall|k: int|
                0 <= k < values@.len() && (#[trigger] values@[k]).0 < old(self).window@.len()
                    + WINDOW_AHEAD ==> values@[k].0 < final(self).window@.len() && final(self).window@[values@[k].0 as int] is Resolved,
            pairs_slots_distinct(values@) ==> forall|k: int|
                0 <= k < values@.len() && (#[trigger] values@[k]).0 < old(self).window@.len()
                    + WINDOW_AHEAD ==> decision_of(final(self).window@[values@[k].0 as int]) == (
                if values@[k].0 < old(self).window@.len() && old(self).window@[values@[k].0 as int]
                    is Resolved {
                    decision_of(old(self).window@[values@[k].0 as int])
                } else {
                    Some((bal, bytes_view(values@[k].1)))
                }),
    {
        let ghost w0 = self.window@;
        let mut i: usize = 0;
        while i < values.len()
            invariant
                i <= values@.len(),
                self.wf(),
                w0 == old(self).window@,
                *self == (PaxosReplica { window: self.window, ..*old(self) }),
                resolved_preserved(w0, self.window@),
                forall|k: int|
                    0 <= k < i && (#[trigger] values@[k]).0 < w0.len() + WINDOW_AHEAD ==> values@[
                        k
                    ].0 < self.window@.len() && self.window@[values@[k].0 as int] is Resolved,
                pairs_slots_distinct(values@) ==> forall|k: int|
                    0 <= k < i && (#[trigger] values@[k]).0 < w0.len() + WINDOW_AHEAD
                        ==> decision_of(self.window@[values@[k].0 as int]) == (if values@[k].0
                        < w0.len() && w0[values@[k].0 as int] is Resolved {
                        decision_of(w0[values@[k].0 as int])
                    } else {
                        Some((bal, bytes_view(values@[k].1)))
                    }),
                forall|j: int|
                    0 <= j < w0.len() && (forall|k: int| 0 <= k < i ==> (#[trigger] values@[k]).0
                        != j) ==> #[trigger] self.window@[j] == w0[j],
                forall|j: int|
                    w0.len() <= j < self.window@.len() && (forall|k: int|
                        0 <= k < i ==> (#[trigger] values@[k]).0 != j) ==> (
                    #[trigger] self.window@[j]) is Empty,
            decreases values@.len() - i,
        {
            let ghost wpre = self.window@;
            let s = values[i].0;
            let v = bytes_clone(&values[i].1);
            let ok = self.window.ensure_open(s);
            proof {
                assert(resolved_preserved(wpre, self.window@));
                assert forall|j: int|
                    0 <= j < self.window@.len() implies slot_under_floor(
                    #[trigger] self.window@[j],
                    self.promised,
                ) by {
                    if !(ok && (j >= wpre.len() || j == s)) {
                        assert(self.window@[j] == wpre[j]);
                        assert(slot_under_floor(self.window@[j], self.promised));
                    }
                }
            }
            let ghost wmid = self.window@;
            if ok {
                let slot = self.window.slot_mut(s);
                slot.resolve(bal, v);
                proof {
                    assert(self.window@ =~= wmid.update(
                        s as int,
                        slot_resolve_step(wmid[s as int], bal, bytes_view(values@[i as int].1)),
                    ));
                    assert(resolved_preserved(wmid, self.window@));
                    assert forall|j: int|
                        0 <= j < self.window@.len() implies slot_under_floor(
                        #[trigger] self.window@[j],
                        self.promised,
                    ) by {
                        if 0 <= j < wpre.len() {
                            assert(slot_under_floor(wpre[j], self.promised));
                        }
                        if j != s {
                            assert(self.window@[j] == wmid[j]);
                            assert(slot_under_floor(self.window@[j], self.promised));
                        }
                    }
                }
            }
            proof {
                lemma_resolved_preserved_trans(wpre, wmid, self.window@);
                lemma_resolved_preserved_trans(w0, wpre, self.window@);
                assert forall|k: int|
                    0 <= k < i + 1 && (#[trigger] values@[k]).0 < w0.len() + WINDOW_AHEAD implies
                    values@[k].0 < self.window@.len() && self.window@[values@[k].0 as int]
                        is Resolved by {
                    if k < i {
                        assert(wpre[values@[k].0 as int] is Resolved);
                    }
                }
                if pairs_slots_distinct(values@) {
                    assert forall|k: int|
                        0 <= k < i + 1 && (#[trigger] values@[k]).0 < w0.len() + WINDOW_AHEAD
                        implies decision_of(self.window@[values@[k].0 as int]) == (if values@[k].0
                        < w0.len() && w0[values@[k].0 as int] is Resolved {
                        decision_of(w0[values@[k].0 as int])
                    } else {
                        Some((bal, bytes_view(values@[k].1)))
                    }) by {
                        if k < i {
                            assert(wpre[values@[k].0 as int] is Resolved);
                            assert(self.window@[values@[k].0 as int] == wpre[
                                values@[k].0 as int
                            ]);
                        } else {
                            if s < w0.len() {
                                assert(wpre[s as int] == w0[s as int]);
                                assert(wmid[s as int] == (if w0[s as int] is Empty {
                                    crate::slot::fresh_open_slot()
                                } else {
                                    w0[s as int]
                                }));
                            } else {
                                if s < wpre.len() {
                                    assert(wpre[s as int] is Empty);
                                }
                                assert(wmid[s as int] == crate::slot::fresh_open_slot());
                            }
                        }
                    }
                    assert forall|j: int|
                        w0.len() <= j < self.window@.len() && (forall|k: int|
                            0 <= k < i + 1 ==> (#[trigger] values@[k]).0 != j) implies (
                        #[trigger] self.window@[j]) is Empty by {
                        if j < wpre.len() {
                            assert(wpre[j] is Empty);
                            assert(self.window@[j] == wpre[j]);
                        }
                    }
                }
            }
            i = i + 1;
        }
    }
}

/// No slot is listed twice.
pub open spec fn pairs_slots_distinct(s: Seq<(Slot, Value)>) -> bool {
    forall|k1: int, k2: int| 0 <= k1 < k2 < s.len() ==> (#[trigger] s[k1]).0 != (#[trigger] s[k2]).0
}


/// After this many ticks with the same slot blocking execution, the
/// leader proposes a no-op value there to unblock it.
pub const GAP_FILL_TICKS: u64 = 20;

/// After this many ticks with the same slot unresolved, a follower asks a
/// peer for its resolution.
pub const CATCHUP_TICKS: u64 = 10;

/// While seeking leadership, the PREPARE is re-broadcast at this cadence.
pub const RETRANSMIT_TICKS: u64 = 10;

impl PaxosReplica {
    /// Handles a PREPARE: when `bal` strictly beats the promise floor, the
    /// floor rises to `bal`, every open slot's acceptor promises it, and
    /// one PROMISE carrying all accepted values answers the preparer (own
    /// prepares are counted directly). Otherwise one REJECT with the
    /// preempting floor answers it. The floor never decreases.
    #[verifier::loop_isolation(false)]
    pub fn on_prepare(&mut self, bal: Ballot, metas: CommandMetas)
        requires
            old(self).wf(),
        ensures
            final(self).wf(),
            resolved_preserved(old(self).window@, final(self).window@),
            floor_le(old(self).promised, final(self).promised),
            old(self).outbound@.is_prefix_of(final(self).outbound@),
            (match old(self).promised {
                None => true,
                Some(p) => p.lt_spec(bal),
            }) ==> final(self).promised == Some(bal),
            *final(self) == (PaxosReplica {
                window: final(self).window,
                promised: final(self).promised,
                leading: final(self).leading,
                buffered: final(self).buffered,
                outbound: final(self).outbound,
                ..*old(self)
            }),
            // handling a PREPARE never changes which ballot a slot drives,
            // when it is the driven one everywhere
            old(self).current_ballot == Some(bal) && window_drives(old(self).window@, bal)
                ==> window_drives(final(self).window@, bal),
            // a winning PREPARE from a peer steps every slot's acceptor and
            // touches nothing else (our own PREPARE goes on to count the
            // promise it produced)
            (match old(self).promised {
                None => true,
                Some(p) => p.lt_spec(bal),
            }) && bal.1 != old(self).config.current_spec() ==> final(self).window@.len() == old(
                self,
            ).window@.len() && (forall|j: int|
                0 <= j < old(self).window@.len() ==> final(self).window@[j]
                    == slot_prepare_sweep(#[trigger] old(self).window@[j], bal)),
            // a PROMISE sent back reports exactly the accepted state the
            // window holds: every listed pair is real, and every slot with
            // accepted state is listed
            (match old(self).promised {
                None => true,
                Some(p) => p.lt_spec(bal),
            }) && bal.1 != old(self).config.current_spec() ==> final(self).outbound@.len() == old(
                self,
            ).outbound@.len() + 1 && (final(self).outbound@.last().command@ matches
                CommandV::Promise { node, ballot, accepted } && node == old(
                self,
            ).config.current_spec() && ballot == bal && (forall|k: int|
                0 <= k < accepted.len() ==> 0 <= (#[trigger] accepted[k]).0 < old(
                    self,
                ).window@.len() && accepted_of(old(self).window@[accepted[k].0 as int]) == Some(
                    (accepted[k].1, accepted[k].2),
                )) && (forall|j: int|
                0 <= j < old(self).window@.len() && accepted_of(
                    #[trigger] old(self).window@[j],
                ) is Some ==> exists|k: int|
                    0 <= k < accepted.len() && #[trigger] accepted[k] == (
                    j as Slot,
                    accepted_of(old(self).window@[j])->Some_0.0,
                    accepted_of(old(self).window@[j])->Some_0.1,
                    ))),
            // a losing PREPARE changes nothing and answers with the
            // preempting floor
            !(match old(self).promised {
                None => true,
                Some(p) => p.lt_spec(bal),
            }) ==> *final(self) == (PaxosReplica { outbound: final(self).outbound, ..*old(self) })
                && (bal.1 != old(self).config.current_spec() ==> final(self).outbound@.len()
                == old(self).outbound@.len() + 1 && final(self).outbound@.last().command@ == (
                CommandV::Reject {
                    node: old(self).config.current_spec(),
                    proposed: bal,
                    preempted: old(self).promised->Some_0,
                })) && (bal.1 == old(self).config.current_spec() ==> final(self).outbound@ == old(
                self,
            ).outbound@),
    {
        let wins = match &self.promised {
            None => true,
            Some(p) => p.lt(&bal),
        };
        let me = self.config.current();
        if !wins {
            let pre = match &self.promised {
                Some(p) => *p,
                None => bal,
            };
            if bal.1 != me {
                self.send_to(bal.1, Command::Reject { payload: (me, bal, pre) }, metas);
            }
            return ;
        }
        self.promised = Some(bal);
        proof {
            assert forall|j: int|
                0 <= j < self.window@.len() implies slot_under_floor(
                #[trigger] self.window@[j],
                Some(bal),
            ) by {}
        }
        let mut accepted: Vec<(Slot, Ballot, Value)> = Vec::new();
        let len = self.window.len();
        let mut i: usize = 0;
        while i < len
            invariant
                i <= len,
                len == self.window@.len(),
                *self == (PaxosReplica {
                    window: self.window,
                    promised: Some(bal),
                    ..*old(self)
                }),
                self.window.quorum == old(self).window.quorum,
                self.window.wf(),
                resolved_preserved(old(self).window@, self.window@),
                forall|j: int|
                    0 <= j < self.window@.len() ==> slot_under_floor(
                        #[trigger] self.window@[j],
                        Some(bal),
                    ),
                forall|j: int|
                    0 <= j < self.window@.len() ==> accepted_of(#[trigger] self.window@[j])
                        == accepted_of(old(self).window@[j]),
                forall|j: int|
                    0 <= j < i ==> self.window@[j] == slot_prepare_sweep(
                        #[trigger] old(self).window@[j],
                        bal,
                    ),
                forall|j: int| i <= j < len ==> #[trigger] self.window@[j] == old(self).window@[j],
                window_drives(old(self).window@, bal) ==> window_drives(self.window@, bal),
                forall|k: int|
                    0 <= k < accepted@.len() ==> 0 <= (#[trigger] triples_of(accepted@)[k]).0 < len
                        && accepted_of(old(self).window@[triples_of(accepted@)[k].0 as int])
                        == Some((triples_of(accepted@)[k].1, triples_of(accepted@)[k].2)),
                forall|j: int|
                    0 <= j < i && accepted_of(#[trigger] old(self).window@[j]) is Some ==> exists|
                        k: int,
                    |
                        0 <= k < accepted@.len() && #[trigger] triples_of(accepted@)[k] == (
                        j as Slot,
                        accepted_of(old(self).window@[j])->Some_0.0,
                        accepted_of(old(self).window@[j])->Some_0.1,
                        ),
            decreases len - i,
        {
            let ghost wpre = self.window@;
            let ghost apre = accepted@;
            let slot = self.window.slot_mut(i as u64);
            let r = slot.receive_prepare(bal);
            match r {
                Some(PrepareReply::Promise { accepted: Some(p) }) => {
                    accepted.push((i as u64, p.0, p.1));
                },
                _ => {},
            }
            proof {
                assert(resolved_preserved(wpre, self.window@));
                lemma_resolved_preserved_trans(old(self).window@, wpre, self.window@);
                assert forall|j: int|
                    0 <= j < self.window@.len() implies slot_under_floor(
                    #[trigger] self.window@[j],
                    Some(bal),
                ) by {
                    if 0 <= j < wpre.len() {
                        assert(slot_under_floor(wpre[j], Some(bal)));
                    }
                    if j != i {
                        assert(self.window@[j] == wpre[j]);
                        assert(slot_under_floor(self.window@[j], Some(bal)));
                    }
                }
                assert forall|j: int|
                    0 <= j < self.window@.len() implies accepted_of(#[trigger] self.window@[j])
                        == accepted_of(old(self).window@[j]) by {
                    if j != i {
                        assert(self.window@[j] == wpre[j]);
                    }
                    assert(accepted_of(wpre[j]) == accepted_of(old(self).window@[j]));
                }
                assert(wpre[i as int] == old(self).window@[i as int]);
                assert(slot_under_floor(old(self).window@[i as int], old(self).promised));
                if window_drives(old(self).window@, bal) {
                    assert forall|j: int|
                        0 <= j < self.window@.len() implies match #[trigger] self.window@[j] {
                        SlotV::Open { proposer, .. } => proposer.ballot == Some(bal),
                        _ => true,
                    } by {
                        assert(window_drives(wpre, bal));
                        if j != i {
                            assert(self.window@[j] == wpre[j]);
                        }
                    }
                }
                assert forall|j: int|
                    0 <= j < i + 1 && accepted_of(#[trigger] old(self).window@[j]) is Some
                    implies exists|k: int|
                        0 <= k < accepted@.len() && #[trigger] triples_of(accepted@)[k] == (
                        j as Slot,
                        accepted_of(old(self).window@[j])->Some_0.0,
                        accepted_of(old(self).window@[j])->Some_0.1,
                        ) by {
                    if j < i {
                        let k0 = choose|k0: int|
                            0 <= k0 < apre.len() && #[trigger] triples_of(apre)[k0] == (
                            j as Slot,
                            accepted_of(old(self).window@[j])->Some_0.0,
                            accepted_of(old(self).window@[j])->Some_0.1,
                            );
                        assert(triples_of(accepted@)[k0] == triples_of(apre)[k0]);
                    } else {
                        assert(accepted@.len() == apre.len() + 1);
                        assert(triples_of(accepted@)[apre.len() as int] == (
                            accepted@.last().0,
                            accepted@.last().1,
                            bytes_view(accepted@.last().2),
                        ));
                    }
                }
                assert forall|k: int|
                    0 <= k < accepted@.len() implies 0 <= (#[trigger] triples_of(accepted@)[k]).0
                        < len && accepted_of(old(self).window@[triples_of(accepted@)[k].0 as int])
                        == Some((triples_of(accepted@)[k].1, triples_of(accepted@)[k].2)) by {
                    if k < apre.len() {
                        assert(triples_of(accepted@)[k] == triples_of(apre)[k]);
                    } else {
                        assert(accepted@ == apre.push(accepted@.last()));
                        assert(triples_of(accepted@)[k] == (
                            i as u64,
                            accepted@.last().1,
                            bytes_view(accepted@.last().2),
                        ));
                        assert(accepted_of(wpre[i as int]) == Some(
                            (accepted@.last().1, bytes_view(accepted@.last().2)),
                        ));
                    }
                }
            }
            i = i + 1;
        }
        if bal.1 == me {
            self.on_promise(me, bal, accepted, metas);
        } else {
            self.send_to(bal.1, Command::Promise { payload: (me, bal, accepted) }, metas);
        }
    }

    /// Handles a PROMISE for the ballot this node drives: every open
    /// slot's proposer counts it, with the accepted pair listed for that
    /// slot. Slots whose quorum completes move to phase 2; once any does,
    /// this node leads, drains its buffered proposals into fresh slots,
    /// and broadcasts one ACCEPT for everything started.
    #[verifier::loop_isolation(false)]
    pub fn on_promise(
        &mut self,
        node: NodeId,
        bal: Ballot,
        accepted: Vec<(Slot, Ballot, Value)>,
        metas: CommandMetas,
    )
        requires
            old(self).wf(),
        ensures
            final(self).wf(),
            resolved_preserved(old(self).window@, final(self).window@),
            floor_le(old(self).promised, final(self).promised),
            old(self).outbound@.is_prefix_of(final(self).outbound@),
            // a promise for a ballot this node does not drive changes nothing
            old(self).current_ballot != Some(bal) ==> *final(self) == *old(self),
            final(self).promised == old(self).promised || final(self).promised == Some(bal),
            // leadership is taken exactly when some slot's prepare quorum
            // completes, and a leader holds no buffered proposals back
            old(self).current_ballot == Some(bal) ==> final(self).leading == (old(self).leading
                || (exists|j: int|
                0 <= j < old(self).window@.len() && slot_promise_crosses(
                    #[trigger] old(self).window@[j],
                    node,
                    bal,
                    old(self).config.quorum_size_spec(),
                ))),
            old(self).current_ballot == Some(bal) && final(self).leading ==> final(self).buffered@.len() == 0,
            *final(self) == (PaxosReplica {
                window: final(self).window,
                promised: final(self).promised,
                leading: final(self).leading,
                buffered: final(self).buffered,
                outbound: final(self).outbound,
                ..*old(self)
            }),
            // counting promises and starting accepts never changes which
            // ballot a slot drives, when it is the driven one everywhere
            old(self).current_ballot == Some(bal) && window_drives(old(self).window@, bal)
                ==> window_drives(final(self).window@, bal),
            // every slot not crossing counts the promise by the sweep, with
            // the accepted entry listed for it
            old(self).current_ballot == Some(bal) ==> forall|j: int|
                0 <= j < old(self).window@.len() && !(old(self).window@[j] is Empty)
                    && !slot_promise_crosses(
                    old(self).window@[j],
                    node,
                    bal,
                    old(self).config.quorum_size_spec(),
                ) ==> #[trigger] final(self).window@[j] == slot_promise_sweep(
                    old(self).window@[j],
                    node,
                    bal,
                    promise_entry_for(triples_of(accepted@), j as Slot),
                    old(self).config.quorum_size_spec(),
                ),
            // a completed quorum broadcasts one ACCEPT for the driven
            // ballot to every peer; each carried pair is a crossing slot
            // with the value its proposer adopted (the sweep applies the
            // highest-ballot-accepted-else-own rule) or a fresh slot
            // carrying a buffered proposal
            old(self).current_ballot == Some(bal) && (exists|j: int|
                0 <= j < old(self).window@.len() && slot_promise_crosses(
                    #[trigger] old(self).window@[j],
                    node,
                    bal,
                    old(self).config.quorum_size_spec(),
                )) && old(self).config.peer_ids().len() > 0 ==> final(self).outbound@.len() >= old(
                self,
            ).outbound@.len() + old(self).config.peer_ids().len() && (env_views(
                final(self).outbound@,
            )[old(self).outbound@.len() as int].1 matches CommandV::Accept { ballot, slot_values }
                && ballot == bal && slot_values.len() >= 1 && (forall|k: int|
                0 <= k < slot_values.len() ==> ((#[trigger] slot_values[k]).0 < old(
                    self,
                ).window@.len() && slot_promise_crosses(
                    old(self).window@[slot_values[k].0 as int],
                    node,
                    bal,
                    old(self).config.quorum_size_spec(),
                ) && Some(slot_values[k].1) == slot_proposing_of(
                    slot_promise_sweep(
                        old(self).window@[slot_values[k].0 as int],
                        node,
                        bal,
                        promise_entry_for(triples_of(accepted@), slot_values[k].0),
                        old(self).config.quorum_size_spec(),
                    ),
                )) || ((slot_values[k].0 >= old(self).window@.len() || old(self).window@[
                    slot_values[k].0 as int
                ] is Empty) && exists|l: int|
                    0 <= l < old(self).buffered@.len() && slot_values[k].1 == bytes_view(
                        old(self).buffered@[l],
                    )))) && (forall|q: int|
                0 <= q < old(self).config.peer_ids().len() ==> #[trigger] env_views(
                    final(self).outbound@,
                )[old(self).outbound@.len() + q] == (
                old(self).config.peer_ids()[q],
                env_views(final(self).outbound@)[old(self).outbound@.len() as int].1,
                )),
    {
        let cur = match &self.current_ballot {
            Some(b) => *b,
            None => {
                return ;
            },
        };
        if !(cur == bal) {
            return ;
        }
        let quorum = self.window.quorum_size();
        let len = self.window.len();
        let mut started: Vec<(Slot, Value)> = Vec::new();
        let mut i: usize = 0;
        while i < len
            invariant
                i <= len,
                len == self.window@.len(),
                quorum as int == old(self).config.quorum_size_spec(),
                *self == (PaxosReplica { window: self.window, ..*old(self) }),
                self.window.quorum == old(self).window.quorum,
                self.window.wf(),
                resolved_preserved(old(self).window@, self.window@),
                forall|j: int|
                    0 <= j < self.window@.len() ==> slot_under_floor(
                        #[trigger] self.window@[j],
                        self.promised,
                    ),
                forall|j: int| i <= j < len ==> #[trigger] self.window@[j] == old(self).window@[j],
                forall|j: int|
                    0 <= j < i ==> #[trigger] self.window@[j] == slot_promise_sweep(
                        old(self).window@[j],
                        node,
                        bal,
                        promise_entry_for(triples_of(accepted@), j as Slot),
                        quorum as int,
                    ),
                started@.len() > 0 <==> (exists|j: int|
                    0 <= j < i && slot_promise_crosses(
                        #[trigger] old(self).window@[j],
                        node,
                        bal,
                        quorum as int,
                    )),
                forall|k: int|
                    0 <= k < started@.len() ==> started_pair_ok(
                        *old(self),
                        node,
                        bal,
                        triples_of(accepted@),
                        (#[trigger] started@[k].0, bytes_view(started@[k].1)),
                    ),
                window_drives(old(self).window@, bal) ==> window_drives(self.window@, bal),
                forall|k: int|
                    0 <= k < started@.len() ==> (#[trigger] started@[k]).0 < self.window@.len()
                        && !(self.window@[started@[k].0 as int] is Empty),
            decreases len - i,
        {
            let mut acc: Option<(Ballot, Value)> = None;
            let mut k: usize = 0;
            while k < accepted.len()
                invariant
                    k <= accepted@.len(),
                    opt_accepted_view(acc) == promise_entry_for(
                        triples_of(accepted@).take(k as int),
                        i as u64,
                    ),
                decreases accepted@.len() - k,
            {
                proof {
                    assert(triples_of(accepted@).take(k as int + 1).drop_last() =~= triples_of(
                        accepted@,
                    ).take(k as int));
                    assert(triples_of(accepted@).take(k as int + 1).last() == (
                        accepted@[k as int].0,
                        accepted@[k as int].1,
                        bytes_view(accepted@[k as int].2),
                    ));
                }
                if accepted[k].0 == i as u64 {
                    acc = Some((accepted[k].1, bytes_clone(&accepted[k].2)));
                }
                k = k + 1;
            }
            proof {
                assert(triples_of(accepted@).take(accepted@.len() as int) =~= triples_of(
                    accepted@,
                ));
            }
            let ghost wpre = self.window@;
            let ghost started_pre = started@;
            let slot = self.window.slot_mut(i as u64);
            let r = slot.receive_promise(node, bal, acc, quorum);
            match r {
                Some(v) => {
                    started.push((i as u64, v));
                },
                None => {},
            }
            proof {
                assert(wpre[i as int] == old(self).window@[i as int]);
                assert(r is Some <==> slot_promise_crosses(
                    old(self).window@[i as int],
                    node,
                    bal,
                    quorum as int,
                ));
                assert(self.window@[i as int] == slot_promise_sweep(
                    old(self).window@[i as int],
                    node,
                    bal,
                    promise_entry_for(triples_of(accepted@), i as u64),
                    quorum as int,
                ));
                if window_drives(old(self).window@, bal) {
                    assert forall|j: int|
                        0 <= j < self.window@.len() implies match #[trigger] self.window@[j] {
                        SlotV::Open { proposer, .. } => proposer.ballot == Some(bal),
                        _ => true,
                    } by {
                        assert(window_drives(wpre, bal));
                        if j != i {
                            assert(self.window@[j] == wpre[j]);
                        }
                    }
                }
                assert forall|k: int|
                    0 <= k < started@.len() implies (#[trigger] started@[k]).0
                        < self.window@.len() && !(self.window@[started@[k].0 as int] is Empty)
                    by {
                    if k < started_pre.len() {
                        assert(started@[k] == started_pre[k]);
                        if started@[k].0 as int != i as int {
                            assert(self.window@[started@[k].0 as int] == wpre[
                                started@[k].0 as int
                            ]);
                        }
                    } else {
                        assert(started@[k].0 == i as u64);
                    }
                }
                assert forall|k2: int|
                    0 <= k2 < started@.len() implies started_pair_ok(
                    *old(self),
                    node,
                    bal,
                    triples_of(accepted@),
                    (#[trigger] started@[k2].0, bytes_view(started@[k2].1)),
                ) by {
                    if k2 < started_pre.len() {
                        assert(started@[k2] == started_pre[k2]);
                    }
                }
                assert(resolved_preserved(wpre, self.window@));
                lemma_resolved_preserved_trans(old(self).window@, wpre, self.window@);
                assert forall|j: int|
                    0 <= j < self.window@.len() implies slot_under_floor(
                    #[trigger] self.window@[j],
                    self.promised,
                ) by {
                    if 0 <= j < wpre.len() {
                        assert(slot_under_floor(wpre[j], self.promised));
                    }
                    if j != i {
                        assert(self.window@[j] == wpre[j]);
                        assert(slot_under_floor(self.window@[j], self.promised));
                    }
                }
            }
            i = i + 1;
        }
        if started.len() > 0 {
            self.leading = true;
        }
        if self.leading {
            while self.buffered.len() > 0
                invariant
                    *self == (PaxosReplica {
                        window: self.window,
                        buffered: self.buffered,
                        leading: self.leading,
                        ..*old(self)
                    }),
                    self.leading == (old(self).leading || (exists|j: int|
                        0 <= j < old(self).window@.len() && slot_promise_crosses(
                            #[trigger] old(self).window@[j],
                            node,
                            bal,
                            old(self).config.quorum_size_spec(),
                        ))),
                    self.leading,
                    self.window.quorum == old(self).window.quorum,
                    self.window.wf(),
                    resolved_preserved(old(self).window@, self.window@),
                    forall|j: int|
                        0 <= j < self.window@.len() ==> slot_under_floor(
                            #[trigger] self.window@[j],
                            self.promised,
                        ),
                    self.buffered@.len() <= old(self).buffered@.len(),
                    self.buffered@ == old(self).buffered@.take(self.buffered@.len() as int),
                    self.window@.len() >= old(self).window@.len(),
                    forall|j: int|
                        0 <= j < old(self).window@.len() && !(old(self).window@[j] is Empty)
                            ==> #[trigger] self.window@[j] == slot_promise_sweep(
                            old(self).window@[j],
                            node,
                            bal,
                            promise_entry_for(triples_of(accepted@), j as Slot),
                            old(self).config.quorum_size_spec(),
                        ),
                    forall|j: int|
                        0 <= j < old(self).window@.len() && (#[trigger] self.window@[j])
                            is Empty ==> old(self).window@[j] is Empty,
                    (exists|j: int|
                        0 <= j < old(self).window@.len() && slot_promise_crosses(
                            #[trigger] old(self).window@[j],
                            node,
                            bal,
                            old(self).config.quorum_size_spec(),
                        )) ==> started@.len() > 0,
                    window_drives(old(self).window@, bal) ==> window_drives(self.window@, bal),
                    forall|k: int|
                        0 <= k < started@.len() ==> (#[trigger] started@[k]).0
                            < self.window@.len() && !(self.window@[started@[k].0 as int]
                            is Empty),
                    forall|k: int|
                        0 <= k < started@.len() ==> started_pair_ok(
                            *old(self),
                            node,
                            bal,
                            triples_of(accepted@),
                            (#[trigger] started@[k].0, bytes_view(started@[k].1)),
                        ),
                decreases self.buffered@.len(),
            {
                let ghost buf_pre = self.buffered@;
                let ghost started_pre2 = started@;
                let v = match self.buffered.pop() {
                    Some(v) => v,
                    None => {
                        break ;
                    },
                };
                proof {
                    assert(v == buf_pre[buf_pre.len() - 1]);
                    assert(buf_pre == old(self).buffered@.take(buf_pre.len() as int));
                    assert(old(self).buffered@.take(buf_pre.len() as int)[buf_pre.len() - 1]
                        == old(self).buffered@[buf_pre.len() - 1]);
                    assert(buf_pre[buf_pre.len() - 1] == old(self).buffered@[buf_pre.len() - 1]);
                    assert(self.buffered@ =~= old(self).buffered@.take(
                        self.buffered@.len() as int,
                    ));
                }
                let n = self.window.len();
                if n < usize::MAX - 1 {
                    let ghost wpre = self.window@;
                    let s = self.window.next_slot();
                    proof {
                        assert(resolved_preserved(wpre, self.window@));
                        lemma_resolved_preserved_trans(old(self).window@, wpre, self.window@);
                        assert forall|j: int|
                            0 <= j < self.window@.len() implies slot_under_floor(
                            #[trigger] self.window@[j],
                            self.promised,
                        ) by {
                            if 0 <= j < wpre.len() {
                                assert(slot_under_floor(wpre[j], self.promised));
                            }
                            if j != s && j < wpre.len() {
                                assert(self.window@[j] == wpre[j]);
                                assert(slot_under_floor(self.window@[j], self.promised));
                            }
                        }
                    }
                    let ghost wmid = self.window@;
                    let vs = bytes_clone(&v);
                    let slot = self.window.slot_mut(s);
                    slot.start_accept(bal, vs);
                    started.push((s, v));
                    proof {
                        if s < old(self).window@.len() {
                            assert(wpre[s as int] is Empty);
                            assert(old(self).window@[s as int] is Empty);
                        }
                        assert(wmid[s as int] == crate::slot::fresh_open_slot());
                        assert(match self.window@[s as int] {
                            SlotV::Open { proposer, .. } => proposer.ballot == Some(bal),
                            _ => false,
                        });
                        if window_drives(old(self).window@, bal) {
                            assert forall|j: int|
                                0 <= j < self.window@.len() implies match #[trigger] self.window@[j] {
                                SlotV::Open { proposer, .. } => proposer.ballot == Some(bal),
                                _ => true,
                            } by {
                                assert(window_drives(wpre, bal));
                                if j != s {
                                    assert(self.window@[j] == wmid[j]);
                                    if j < wpre.len() {
                                        assert(wmid[j] == wpre[j]);
                                    } else {
                                        assert(wmid[j] == crate::slot::fresh_open_slot());
                                        assert(false);
                                    }
                                }
                            }
                        }
                        assert forall|k2: int|
                            0 <= k2 < started@.len() implies (#[trigger] started@[k2]).0
                                < self.window@.len() && !(self.window@[started@[k2].0 as int]
                                is Empty) by {
                            if k2 < started_pre2.len() {
                                assert(started@[k2] == started_pre2[k2]);
                                if started@[k2].0 != s {
                                    assert(self.window@[started@[k2].0 as int] == wmid[
                                        started@[k2].0 as int
                                    ]);
                                    if (started@[k2].0 as int) < wpre.len() {
                                        assert(wmid[started@[k2].0 as int] == wpre[
                                            started@[k2].0 as int
                                        ]);
                                    }
                                } else {
                                    assert(!(self.window@[s as int] is Empty));
                                }
                            } else {
                                assert(started@[k2].0 == s);
                                assert(!(self.window@[s as int] is Empty));
                            }
                        }
                        assert forall|k2: int|
                            0 <= k2 < started@.len() implies started_pair_ok(
                            *old(self),
                            node,
                            bal,
                            triples_of(accepted@),
                            (#[trigger] started@[k2].0, bytes_view(started@[k2].1)),
                        ) by {
                            if k2 < started_pre2.len() {
                                assert(started@[k2] == started_pre2[k2]);
                            } else {
                                assert(started@[k2] == (s, v));
                                assert(bytes_view(v) == bytes_view(old(self).buffered@[
                                    buf_pre.len() - 1
                                ]));
                            }
                        }
                        assert forall|j: int|
                            0 <= j < old(self).window@.len() && !(old(self).window@[j] is Empty)
                                implies #[trigger] self.window@[j] == slot_promise_sweep(
                                old(self).window@[j],
                                node,
                                bal,
                                promise_entry_for(triples_of(accepted@), j as Slot),
                                old(self).config.quorum_size_spec(),
                            ) by {
                            if j == s {
                                assert(old(self).window@[s as int] is Empty);
                            } else {
                                assert(self.window@[j] == wmid[j]);
                                assert(wmid[j] == wpre[j]);
                            }
                        }
                        assert forall|j: int|
                            0 <= j < old(self).window@.len() && (#[trigger] self.window@[j])
                                is Empty implies old(self).window@[j] is Empty by {
                            if j == s {
                                assert(wmid[s as int] == crate::slot::fresh_open_slot());
                                assert(!(self.window@[s as int] is Empty));
                            } else {
                                assert(self.window@[j] == wpre[j]);
                            }
                        }
                        assert(resolved_preserved(wmid, self.window@));
                        lemma_resolved_preserved_trans(old(self).window@, wmid, self.window@);
                        assert forall|j: int|
                            0 <= j < self.window@.len() implies slot_under_floor(
                            #[trigger] self.window@[j],
                            self.promised,
                        ) by {
                            if 0 <= j < wpre.len() {
                                assert(slot_under_floor(wpre[j], self.promised));
                            }
                            if j != s {
                                assert(self.window@[j] == wmid[j]);
                                assert(slot_under_floor(self.window@[j], self.promised));
                            } else {
                                assert(wmid[j] == crate::slot::fresh_open_slot());
                                assert(slot_under_floor(self.window@[j], self.promised));
                            }
                        }
                    }
                }
            }
        }
        if started.len() > 0 {
            let ghost sv = crate::commands::pairs_view(started@);
            let pairs = crate::commands::dup_pairs(&started);
            let ghost omid = self.outbound@;
            self.broadcast(Command::Accept { payload: (bal, pairs) }, &metas);
            let ghost obro = self.outbound@;
            proof {
                assert(crate::commands::pairs_view(pairs@) == sv);
                let tail = old(self).config.peer_ids().map_values(
                    |nd: NodeId| (nd, CommandV::Accept { ballot: bal, slot_values: sv }),
                );
                assert(env_views(obro) =~= env_views(omid) + tail);
                assert(env_views(omid).len() == omid.len());
                assert forall|q: int|
                    0 <= q < old(self).config.peer_ids().len() implies #[trigger] env_views(
                    obro,
                )[omid.len() + q] == (
                    old(self).config.peer_ids()[q],
                    CommandV::Accept { ballot: bal, slot_values: sv },
                ) by {
                    assert(env_views(obro)[omid.len() + q] == tail[q]);
                }
                assert forall|k: int| 0 <= k < sv.len() implies started_pair_ok(
                    *old(self),
                    node,
                    bal,
                    triples_of(accepted@),
                    #[trigger] sv[k],
                ) by {
                    assert(sv[k] == (started@[k].0, bytes_view(started@[k].1)));
                }
            }
            let ghost wcall = self.window@;
            self.on_accept(bal, started, metas);
            proof {
                assert(env_views(obro).len() == obro.len());
                assert forall|q: int|
                    0 <= q < old(self).config.peer_ids().len() implies #[trigger] env_views(
                    self.outbound@,
                )[omid.len() + q] == (
                    old(self).config.peer_ids()[q],
                    CommandV::Accept { ballot: bal, slot_values: sv },
                ) by {
                    assert(env_views(obro)[omid.len() + q] == (
                        old(self).config.peer_ids()[q],
                        CommandV::Accept { ballot: bal, slot_values: sv },
                    ));
                    assert(obro =~= self.outbound@.take(obro.len() as int));
                    assert(self.outbound@[omid.len() + q] == obro[omid.len() + q]);
                    assert(env_views(self.outbound@)[omid.len() + q] == env_views(obro)[omid.len()
                        + q]);
                }
                assert(omid.len() == old(self).outbound@.len());
                assert(self.outbound@.len() >= obro.len());
                if old(self).config.peer_ids().len() > 0 {
                    assert(env_views(self.outbound@)[omid.len() as int + 0] == (
                        old(self).config.peer_ids()[0],
                        CommandV::Accept { ballot: bal, slot_values: sv },
                    ));
                    assert(env_views(self.outbound@)[old(self).outbound@.len() as int].1 == (
                        CommandV::Accept { ballot: bal, slot_values: sv }
                    ));
                }
                // uncrossed, non-empty slots of the entry window were not
                // listed, so the self-count left them at the sweep
                assert forall|j: int|
                    0 <= j < old(self).window@.len() && !(old(self).window@[j] is Empty)
                        && !slot_promise_crosses(
                        old(self).window@[j],
                        node,
                        bal,
                        old(self).config.quorum_size_spec(),
                    ) implies #[trigger] self.window@[j] == slot_promise_sweep(
                    old(self).window@[j],
                    node,
                    bal,
                    promise_entry_for(triples_of(accepted@), j as Slot),
                    old(self).config.quorum_size_spec(),
                ) by {
                    assert forall|k: int|
                        0 <= k < started@.len() implies (#[trigger] started@[k]).0 != j by {
                        assert(started_pair_ok(
                            *old(self),
                            node,
                            bal,
                            triples_of(accepted@),
                            (started@[k].0, bytes_view(started@[k].1)),
                        ));
                    }
                    assert(self.window@[j] == wcall[j]);
                }
            }
        }
    }

    /// Handles an ACCEPT: when `bal` is at least the promise floor
    /// (equality allowed), the floor rises to `bal`, each listed slot
    /// within reach accepts the value, and one ACCEPTED naming those slots
    /// answers the leader (own accepts are counted directly). Otherwise
    /// one REJECT answers it. The floor never decreases.
    #[verifier::loop_isolation(false)]
    pub fn on_accept(&mut self, bal: Ballot, slot_values: Vec<(Slot, Value)>, metas: CommandMetas)
        requires
            old(self).wf(),
        ensures
            final(self).wf(),
            resolved_preserved(old(self).window@, final(self).window@),
            floor_le(old(self).promised, final(self).promised),
            old(self).outbound@.is_prefix_of(final(self).outbound@),
            // a tolerable ballot becomes the floor; a losing one changes
            // nothing and is answered with the preempting floor
            floor_le(old(self).promised, Some(bal)) ==> final(self).promised == Some(bal),
            *final(self) == (PaxosReplica {
                window: final(self).window,
                promised: final(self).promised,
                outbound: final(self).outbound,
                ..*old(self)
            }),
            !floor_le(old(self).promised, Some(bal)) ==> *final(self) == (PaxosReplica {
                outbound: final(self).outbound,
                ..*old(self)
            }) && (bal.1 != old(self).config.current_spec() ==> final(self).outbound@.len() == old(
                self,
            ).outbound@.len() + 1 && final(self).outbound@.last().command@ == (CommandV::Reject {
                node: old(self).config.current_spec(),
                proposed: bal,
                preempted: old(self).promised->Some_0,
            })) && (bal.1 == old(self).config.current_spec() ==> final(self).outbound@ == old(
                self,
            ).outbound@),
            // accepting values never changes which ballot a slot drives,
            // as long as every listed slot already stands in the window
            forall|b: Ballot|
                #[trigger] window_drives(old(self).window@, b) && (forall|k: int|
                    0 <= k < slot_values@.len() ==> (#[trigger] slot_values@[k]).0 < old(
                        self,
                    ).window@.len() && !(old(self).window@[slot_values@[k].0 as int] is Empty))
                    ==> window_drives(final(self).window@, b),
            // each listed slot within reach accepts the value; unlisted
            // slots are untouched (our own ACCEPT goes on to count the
            // resulting ACCEPTED, so the window moves further)
            floor_le(old(self).promised, Some(bal)) && bal.1 != old(self).config.current_spec()
                && pairs_slots_distinct(slot_values@) ==> (
            forall|k: int|
                0 <= k < slot_values@.len() && (#[trigger] slot_values@[k]).0 < old(
                    self,
                ).window@.len() + WINDOW_AHEAD ==> slot_values@[k].0 < final(self).window@.len()
                    && final(self).window@[slot_values@[k].0 as int] == slot_accept_sweep(
                    materialized(old(self).window@, slot_values@[k].0),
                    bal,
                    bytes_view(slot_values@[k].1),
                )),
            floor_le(old(self).promised, Some(bal)) ==> forall|j: int|
                0 <= j < final(self).window@.len() && (forall|k: int|
                    0 <= k < slot_values@.len() ==> (#[trigger] slot_values@[k]).0 != j) ==> (
                #[trigger] final(self).window@[j]) == (if j < old(self).window@.len() {
                    old(self).window@[j]
                } else {
                    SlotV::Empty
                }),
            // the ACCEPTED answer names every listed slot within reach
            floor_le(old(self).promised, Some(bal)) && bal.1 != old(
                self,
            ).config.current_spec() ==> final(self).outbound@.len() == old(self).outbound@.len()
                + 1 && (final(self).outbound@.last().command@ matches CommandV::Accepted {
                node,
                ballot,
                slots,
            } && node == old(self).config.current_spec() && ballot == bal && (forall|k: int|
                0 <= k < slot_values@.len() && (#[trigger] slot_values@[k]).0 < old(
                    self,
                ).window@.len() + WINDOW_AHEAD ==> slots.contains(slot_values@[k].0)) && (forall|
                l: int,
            |
                0 <= l < slots.len() ==> exists|k: int|
                    0 <= k < slot_values@.len() && (#[trigger] slot_values@[k]).0 == #[trigger] slots[l])),
    {
        let wins = match &self.promised {
            None => true,
            Some(p) => p.le(&bal),
        };
        let me = self.config.current();
        if !wins {
            let pre = match &self.promised {
                Some(p) => *p,
                None => bal,
            };
            if bal.1 != me {
                self.send_to(bal.1, Command::Reject { payload: (me, bal, pre) }, metas);
            }
            return ;
        }
        self.promised = Some(bal);
        proof {
            assert forall|j: int|
                0 <= j < self.window@.len() implies slot_under_floor(
                #[trigger] self.window@[j],
                Some(bal),
            ) by {}
        }
        let mut done: Vec<Slot> = Vec::new();
        let mut i: usize = 0;
        while i < slot_values.len()
            invariant
                i <= slot_values@.len(),
                *self == (PaxosReplica {
                    window: self.window,
                    promised: Some(bal),
                    ..*old(self)
                }),
                self.window.quorum == old(self).window.quorum,
                self.window.wf(),
                resolved_preserved(old(self).window@, self.window@),
                forall|j: int|
                    0 <= j < self.window@.len() ==> slot_under_floor(
                        #[trigger] self.window@[j],
                        Some(bal),
                    ),
                forall|j: int|
                    0 <= j < old(self).window@.len() && !((#[trigger] old(self).window@[j])
                        is Empty) ==> !(self.window@[j] is Empty),
                forall|b: Ballot|
                    #[trigger] window_drives(old(self).window@, b) && (forall|k: int|
                        0 <= k < slot_values@.len() ==> (#[trigger] slot_values@[k]).0 < old(
                            self,
                        ).window@.len() && !(old(self).window@[slot_values@[k].0 as int]
                            is Empty)) ==> window_drives(self.window@, b),
                pairs_slots_distinct(slot_values@) ==> forall|k: int|
                    0 <= k < i && (#[trigger] slot_values@[k]).0 < old(self).window@.len()
                        + WINDOW_AHEAD ==> slot_values@[k].0 < self.window@.len()
                        && self.window@[slot_values@[k].0 as int] == slot_accept_sweep(
                        materialized(old(self).window@, slot_values@[k].0),
                        bal,
                        bytes_view(slot_values@[k].1),
                    ),
                forall|j: int|
                    0 <= j < self.window@.len() && (forall|k: int|
                        0 <= k < i ==> (#[trigger] slot_values@[k]).0 != j) ==> (
                    #[trigger] self.window@[j]) == (if j < old(self).window@.len() {
                        old(self).window@[j]
                    } else {
                        SlotV::Empty
                    }),
                forall|k: int|
                    0 <= k < i && (#[trigger] slot_values@[k]).0 < old(self).window@.len()
                        + WINDOW_AHEAD ==> done@.contains(slot_values@[k].0),
                forall|l: int|
                    0 <= l < done@.len() ==> exists|k: int|
                        0 <= k < slot_values@.len() && (#[trigger] slot_values@[k]).0
                            == #[trigger] done@[l],
            decreases slot_values@.len() - i,
        {
            let s = slot_values[i].0;
            let v = bytes_clone(&slot_values[i].1);
            let ghost vv = bytes_view(v);
            let ghost done_pre = done@;
            let ghost wpre = self.window@;
            let ok = self.window.ensure_open(s);
            proof {
                assert(resolved_preserved(wpre, self.window@));
                lemma_resolved_preserved_trans(old(self).window@, wpre, self.window@);
                assert forall|j: int|
                    0 <= j < self.window@.len() implies slot_under_floor(
                    #[trigger] self.window@[j],
                    Some(bal),
                ) by {
                    if !(ok && (j >= wpre.len() || j == s)) {
                        assert(self.window@[j] == wpre[j]);
                        assert(slot_under_floor(self.window@[j], Some(bal)));
                    }
                }
                assert forall|j: int|
                    0 <= j < old(self).window@.len() && !((#[trigger] old(self).window@[j])
                        is Empty) implies !(self.window@[j] is Empty) by {
                    if !(ok && j == s) {
                        assert(self.window@[j] == wpre[j]);
                    }
                }
            }
            if ok {
                let ghost wmid = self.window@;
                let slot = self.window.slot_mut(s);
                let r = slot.receive_accept(bal, v);
                match &r {
                    Some(crate::roles::AcceptReply::Accepted) => {
                        done.push(s);
                    },
                    _ => {},
                }
                proof {
                    assert(resolved_preserved(wmid, self.window@));
                    lemma_resolved_preserved_trans(old(self).window@, wmid, self.window@);
                    assert forall|j: int|
                        0 <= j < self.window@.len() implies slot_under_floor(
                        #[trigger] self.window@[j],
                        Some(bal),
                    ) by {
                        if 0 <= j < wpre.len() {
                            assert(slot_under_floor(wpre[j], Some(bal)));
                        }
                        if j != s {
                            assert(self.window@[j] == wmid[j]);
                            assert(slot_under_floor(self.window@[j], Some(bal)));
                        }
                    }
                    assert forall|j: int|
                        0 <= j < old(self).window@.len() && !((#[trigger] old(self).window@[j])
                            is Empty) implies !(self.window@[j] is Empty) by {
                        if j != s {
                            assert(self.window@[j] == wmid[j]);
                        }
                    }
                    assert forall|b: Ballot|
                        #[trigger] window_drives(old(self).window@, b) && (forall|k: int|
                            0 <= k < slot_values@.len() ==> (#[trigger] slot_values@[k]).0 < old(
                                self,
                            ).window@.len() && !(old(self).window@[slot_values@[k].0 as int]
                                is Empty)) implies window_drives(self.window@, b) by {
                        assert(slot_values@[i as int].0 == s);
                        assert(!(old(self).window@[s as int] is Empty));
                        assert(!(wpre[s as int] is Empty));
                        assert(wmid[s as int] == wpre[s as int]);
                        assert forall|j: int|
                            0 <= j < self.window@.len() implies match #[trigger] self.window@[j] {
                            SlotV::Open { proposer, .. } => proposer.ballot == Some(b),
                            _ => true,
                        } by {
                            assert(window_drives(wpre, b));
                            if j != s {
                                assert(self.window@[j] == wmid[j]);
                                assert(wmid[j] == wpre[j]);
                            }
                        }
                    }
                    // this round's slot was materialized from the entry state
                    if pairs_slots_distinct(slot_values@) {
                        if s < wpre.len() {
                            assert(wpre[s as int] == (if s < old(self).window@.len() {
                                old(self).window@[s as int]
                            } else {
                                SlotV::Empty
                            }));
                        }
                        assert(wmid[s as int] == materialized(old(self).window@, s));
                        assert(self.window@[s as int] == slot_accept_sweep(
                            materialized(old(self).window@, s),
                            bal,
                            vv,
                        ));
                        assert forall|k: int|
                            0 <= k < i + 1 && (#[trigger] slot_values@[k]).0 < old(
                                self,
                            ).window@.len() + WINDOW_AHEAD implies slot_values@[k].0
                            < self.window@.len() && self.window@[slot_values@[k].0 as int]
                            == slot_accept_sweep(
                            materialized(old(self).window@, slot_values@[k].0),
                            bal,
                            bytes_view(slot_values@[k].1),
                        ) by {
                            if k < i {
                                assert(slot_values@[k].0 != s);
                                assert(self.window@[slot_values@[k].0 as int] == wpre[
                                    slot_values@[k].0 as int
                                ]);
                            }
                        }
                    }
                    // unlisted slots keep their entry state
                    assert forall|j: int|
                        0 <= j < self.window@.len() && (forall|k: int|
                            0 <= k < i + 1 ==> (#[trigger] slot_values@[k]).0 != j) implies (
                        #[trigger] self.window@[j]) == (if j < old(self).window@.len() {
                            old(self).window@[j]
                        } else {
                            SlotV::Empty
                        }) by {
                        if j < wpre.len() {
                            assert(self.window@[j] == wpre[j]);
                        }
                    }
                    // the reply covers this round's slot: nothing under the
                    // floor refuses, and a resolved slot answers accepted
                    assert(!(wmid[s as int] is Empty));
                    assert(slot_under_floor(wmid[s as int], Some(bal)));
                    assert(r == Some(crate::roles::AcceptReply::Accepted));
                    assert(done@ == done_pre.push(s));
                    assert(done@[done@.len() - 1] == s);
                    assert forall|k: int|
                        0 <= k < i + 1 && (#[trigger] slot_values@[k]).0 < old(
                            self,
                        ).window@.len() + WINDOW_AHEAD implies done@.contains(
                        slot_values@[k].0,
                    ) by {
                        if k < i {
                            let l = choose|l: int|
                                0 <= l < done_pre.len() && done_pre[l] == slot_values@[k].0;
                            assert(done@[l] == slot_values@[k].0);
                        } else {
                            assert(done@.contains(s));
                        }
                    }
                }
            } else {
                proof {
                    assert(s >= wpre.len() + WINDOW_AHEAD);
                }
            }
            i = i + 1;
        }
        if bal.1 == me {
            self.on_accepted(me, bal, done, metas);
        } else {
            self.send_to(bal.1, Command::Accepted { payload: (me, bal, done) }, metas);
        }
    }

    /// Handles an ACCEPTED: each listed materialized slot's learner and
    /// proposer count the acceptor. A slot whose own accept quorum
    /// completes has its value broadcast as a RESOLUTION and is resolved
    /// locally; a slot whose learner quorum completes resolves locally
    /// from its own acceptor's value.
    #[verifier::loop_isolation(false)]
    pub fn on_accepted(&mut self, node: NodeId, bal: Ballot, slots: Vec<Slot>, metas: CommandMetas)
        requires
            old(self).wf(),
        ensures
            final(self).wf(),
            resolved_preserved(old(self).window@, final(self).window@),
            old(self).outbound@.is_prefix_of(final(self).outbound@),
            final(self).promised == old(self).promised,
            final(self).window@.len() == old(self).window@.len(),
            *final(self) == (PaxosReplica {
                window: final(self).window,
                outbound: final(self).outbound,
                ..*old(self)
            }),
            // counting accepts never changes which ballot a slot drives
            forall|b: Ballot|
                #[trigger] window_drives(old(self).window@, b) ==> window_drives(
                    final(self).window@,
                    b,
                ),
            // a slot whose accept quorum completes has the value its
            // proposer drives broadcast as a RESOLUTION
            slots_distinct(slots@) && old(self).config.peer_ids().len() > 0 ==> forall|k: int|
                0 <= k < slots@.len() && (#[trigger] slots@[k]) < old(self).window@.len()
                    && slot_accepted_crossing(
                    old(self).window@[slots@[k] as int],
                    node,
                    bal,
                    old(self).config.quorum_size_spec(),
                ) && slot_proposing_of(old(self).window@[slots@[k] as int]) is Some ==> exists|
                    m: int,
                |
                    old(self).outbound@.len() <= m < final(self).outbound@.len() && #[trigger] env_views(
                        final(self).outbound@,
                    )[m] == (
                    old(self).config.peer_ids()[0],
                    CommandV::Resolution {
                        ballot: bal,
                        slot_values: seq![
                            (
                                slots@[k],
                                slot_proposing_of(
                                    old(self).window@[slots@[k] as int],
                                )->Some_0,
                            ),
                        ],
                    },
                    ),
            // each listed materialized slot takes the whole ACCEPTED
            // effect; unlisted slots are untouched
            slots_distinct(slots@) ==> forall|k: int|
                0 <= k < slots@.len() && (#[trigger] slots@[k]) < old(self).window@.len()
                    ==> final(self).window@[slots@[k] as int] == slot_accepted_outcome(
                    old(self).window@[slots@[k] as int],
                    node,
                    bal,
                    old(self).config.quorum_size_spec(),
                ),
            forall|j: int|
                0 <= j < old(self).window@.len() && (forall|k: int|
                    0 <= k < slots@.len() ==> (#[trigger] slots@[k]) != j) ==> (
                #[trigger] final(self).window@[j]) == old(self).window@[j],
    {
        let quorum = self.window.quorum_size();
        let mut i: usize = 0;
        while i < slots.len()
            invariant
                i <= slots@.len(),
                *self == (PaxosReplica {
                    window: self.window,
                    outbound: self.outbound,
                    ..*old(self)
                }),
                self.window@.len() == old(self).window@.len(),
                self.window.quorum == old(self).window.quorum,
                quorum as int == old(self).config.quorum_size_spec(),
                self.window.wf(),
                self.config.wf(),
                resolved_preserved(old(self).window@, self.window@),
                old(self).outbound@.is_prefix_of(self.outbound@),
                forall|j: int|
                    0 <= j < self.window@.len() ==> slot_under_floor(
                        #[trigger] self.window@[j],
                        self.promised,
                    ),
                slots_distinct(slots@) ==> forall|k: int|
                    0 <= k < i && (#[trigger] slots@[k]) < old(self).window@.len()
                        ==> self.window@[slots@[k] as int] == slot_accepted_outcome(
                        old(self).window@[slots@[k] as int],
                        node,
                        bal,
                        quorum as int,
                    ),
                forall|b: Ballot|
                    #[trigger] window_drives(old(self).window@, b) ==> window_drives(
                        self.window@,
                        b,
                    ),
                slots_distinct(slots@) && old(self).config.peer_ids().len() > 0 ==> forall|
                    k: int,
                |
                    0 <= k < i && (#[trigger] slots@[k]) < old(self).window@.len()
                        && slot_accepted_crossing(
                        old(self).window@[slots@[k] as int],
                        node,
                        bal,
                        quorum as int,
                    ) && slot_proposing_of(old(self).window@[slots@[k] as int]) is Some
                        ==> exists|m: int|
                        old(self).outbound@.len() <= m < self.outbound@.len() && #[trigger] env_views(
                            self.outbound@,
                        )[m] == (
                        old(self).config.peer_ids()[0],
                        CommandV::Resolution {
                            ballot: bal,
                            slot_values: seq![
                                (
                                    slots@[k],
                                    slot_proposing_of(
                                        old(self).window@[slots@[k] as int],
                                    )->Some_0,
                                ),
                            ],
                        },
                        ),
                forall|j: int|
                    0 <= j < old(self).window@.len() && (forall|k: int|
                        0 <= k < i ==> (#[trigger] slots@[k]) != j) ==> (
                    #[trigger] self.window@[j]) == old(self).window@[j],
            decreases slots@.len() - i,
        {
            let ghost ohead = self.outbound@;
            let s = slots[i];
            let n = self.window.len();
            if s < n as u64 {
                // the value this slot's proposer drives, read before the
                // tally can resolve the slot and retire the proposer
                let vopt = self.window.slot_ref(s).proposing_value();
                let ghost wpre = self.window@;
                let slot = self.window.slot_mut(s);
                let out = slot.receive_accepted(node, bal, quorum);
                proof {
                    if slots_distinct(slots@) {
                        assert(wpre[s as int] == old(self).window@[s as int]);
                        assert(out.proposer_quorum == slot_accepted_crossing(
                            old(self).window@[s as int],
                            node,
                            bal,
                            quorum as int,
                        ));
                        assert(opt_value_view(vopt) == slot_proposing_of(
                            old(self).window@[s as int],
                        ));
                    }
                    assert(resolved_preserved(wpre, self.window@));
                    lemma_resolved_preserved_trans(old(self).window@, wpre, self.window@);
                    assert forall|j: int|
                        0 <= j < self.window@.len() implies slot_under_floor(
                        #[trigger] self.window@[j],
                        self.promised,
                    ) by {
                        if 0 <= j < wpre.len() {
                            assert(slot_under_floor(wpre[j], self.promised));
                        }
                        if j != s {
                            assert(self.window@[j] == wpre[j]);
                            assert(slot_under_floor(self.window@[j], self.promised));
                        }
                    }
                }
                if out.proposer_quorum {
                    match vopt {
                        Some(v) => {
                            let ghost pv = bytes_view(v);
                            let mut pair: Vec<(Slot, Value)> = Vec::new();
                            pair.push((s, bytes_clone(&v)));
                            let ghost obefore = self.outbound@;
                            self.broadcast(
                                Command::Resolution { payload: (bal, pair) },
                                &metas,
                            );
                            proof {
                                if old(self).config.peer_ids().len() > 0 {
                                    let tail = old(self).config.peer_ids().map_values(
                                        |nd: NodeId|
                                            (
                                                nd,
                                                CommandV::Resolution {
                                                    ballot: bal,
                                                    slot_values: seq![(s, pv)],
                                                },
                                            ),
                                    );
                                    assert(crate::commands::pairs_view(pair@) =~= seq![(s, pv)]);
                                    assert(env_views(self.outbound@) =~= env_views(obefore)
                                        + tail);
                                    assert(env_views(obefore).len() == obefore.len());
                                    assert(env_views(self.outbound@)[obefore.len() as int]
                                        == tail[0]);
                                }
                            }
                            let ghost wmid = self.window@;
                            let slot2 = self.window.slot_mut(s);
                            slot2.resolve(bal, v);
                            proof {
                                assert(resolved_preserved(wmid, self.window@));
                                lemma_resolved_preserved_trans(
                                    old(self).window@,
                                    wmid,
                                    self.window@,
                                );
                                assert forall|j: int|
                                    0 <= j < self.window@.len() implies slot_under_floor(
                                    #[trigger] self.window@[j],
                                    self.promised,
                                ) by {
                                    if 0 <= j < wpre.len() {
                                        assert(slot_under_floor(wpre[j], self.promised));
                                    }
                                    if j != s {
                                        assert(self.window@[j] == wmid[j]);
                                        assert(slot_under_floor(self.window@[j], self.promised));
                                    }
                                }
                            }
                        },
                        None => {},
                    }
                }
            }
            proof {
                if slots_distinct(slots@) && old(self).config.peer_ids().len() > 0 {
                    assert(ohead =~= self.outbound@.take(ohead.len() as int));
                    assert forall|k: int|
                        0 <= k < i + 1 && (#[trigger] slots@[k]) < old(self).window@.len()
                            && slot_accepted_crossing(
                            old(self).window@[slots@[k] as int],
                            node,
                            bal,
                            quorum as int,
                        ) && slot_proposing_of(old(self).window@[slots@[k] as int]) is Some
                        implies exists|m: int|
                        old(self).outbound@.len() <= m < self.outbound@.len() && #[trigger] env_views(
                            self.outbound@,
                        )[m] == (
                        old(self).config.peer_ids()[0],
                        CommandV::Resolution {
                            ballot: bal,
                            slot_values: seq![
                                (
                                    slots@[k],
                                    slot_proposing_of(
                                        old(self).window@[slots@[k] as int],
                                    )->Some_0,
                                ),
                            ],
                        },
                        ) by {
                        if k < i {
                            let m0 = choose|m0: int|
                                old(self).outbound@.len() <= m0 < ohead.len() && (
                                #[trigger] env_views(ohead)[m0]) == (
                                old(self).config.peer_ids()[0],
                                CommandV::Resolution {
                                    ballot: bal,
                                    slot_values: seq![
                                        (
                                            slots@[k],
                                            slot_proposing_of(
                                                old(self).window@[slots@[k] as int],
                                            )->Some_0,
                                        ),
                                    ],
                                },
                                );
                            assert(self.outbound@[m0] == ohead[m0]);
                            assert(env_views(self.outbound@)[m0] == env_views(ohead)[m0]);
                        }
                    }
                }
            }
            i = i + 1;
        }
    }

    /// Handles a REJECT of the ballot this node drives: every open slot's
    /// proposer counts it, and once any slot sees a quorum of rejects the
    /// leadership claim is dropped. The preempting round is remembered so
    /// the next attempt starts above it.
    #[verifier::loop_isolation(false)]
    pub fn on_reject(
        &mut self,
        node: NodeId,
        proposed: Ballot,
        preempted: Ballot,
        _metas: CommandMetas,
    )
        requires
            old(self).wf(),
        ensures
            final(self).wf(),
            resolved_preserved(old(self).window@, final(self).window@),
            floor_le(old(self).promised, final(self).promised),
            old(self).outbound@.is_prefix_of(final(self).outbound@),
            // every slot's proposer counts the reject; the preempting round
            // is remembered; leadership drops exactly when a quorum of
            // rejects completes on some slot
            final(self).window@.len() == old(self).window@.len(),
            forall|j: int|
                0 <= j < old(self).window@.len() ==> final(self).window@[j] == slot_reject_sweep(
                    #[trigger] old(self).window@[j],
                    node,
                    proposed,
                    old(self).config.quorum_size_spec(),
                ),
            final(self).observed_round == (if preempted.0 > old(self).observed_round {
                preempted.0
            } else {
                old(self).observed_round
            }),
            final(self).leading == (old(self).leading && !(exists|j: int|
                0 <= j < old(self).window@.len() && slot_reject_aborts(
                    #[trigger] old(self).window@[j],
                    node,
                    proposed,
                    old(self).config.quorum_size_spec(),
                ))),
            *final(self) == (PaxosReplica {
                window: final(self).window,
                observed_round: final(self).observed_round,
                leading: final(self).leading,
                ..*old(self)
            }),
    {
        if preempted.0 > self.observed_round {
            self.observed_round = preempted.0;
        }
        let quorum = self.window.quorum_size();
        let len = self.window.len();
        let mut aborted = false;
        let mut i: usize = 0;
        while i < len
            invariant
                i <= len,
                len == self.window@.len(),
                quorum as int == old(self).config.quorum_size_spec(),
                *self == (PaxosReplica {
                    window: self.window,
                    observed_round: self.observed_round,
                    ..*old(self)
                }),
                self.window.quorum == old(self).window.quorum,
                self.window.wf(),
                resolved_preserved(old(self).window@, self.window@),
                forall|j: int|
                    0 <= j < self.window@.len() ==> slot_under_floor(
                        #[trigger] self.window@[j],
                        self.promised,
                    ),
                forall|j: int|
                    0 <= j < i ==> self.window@[j] == slot_reject_sweep(
                        #[trigger] old(self).window@[j],
                        node,
                        proposed,
                        quorum as int,
                    ),
                forall|j: int| i <= j < len ==> #[trigger] self.window@[j] == old(self).window@[j],
                self.observed_round == (if preempted.0 > old(self).observed_round {
                    preempted.0
                } else {
                    old(self).observed_round
                }),
                aborted == (exists|j: int|
                    0 <= j < i && slot_reject_aborts(
                        #[trigger] old(self).window@[j],
                        node,
                        proposed,
                        quorum as int,
                    )),
            decreases len - i,
        {
            let ghost wpre = self.window@;
            let slot = self.window.slot_mut(i as u64);
            let a = slot.receive_reject(node, proposed, quorum);
            if a {
                aborted = true;
            }
            proof {
                assert(wpre[i as int] == old(self).window@[i as int]);
                assert(a == slot_reject_aborts(
                    old(self).window@[i as int],
                    node,
                    proposed,
                    quorum as int,
                ));
                assert(resolved_preserved(wpre, self.window@));
                lemma_resolved_preserved_trans(old(self).window@, wpre, self.window@);
                assert forall|j: int|
                    0 <= j < self.window@.len() implies slot_under_floor(
                    #[trigger] self.window@[j],
                    self.promised,
                ) by {
                    if 0 <= j < wpre.len() {
                        assert(slot_under_floor(wpre[j], self.promised));
                    }
                    if j != i {
                        assert(self.window@[j] == wpre[j]);
                        assert(slot_under_floor(self.window@[j], self.promised));
                    }
                }
            }
            i = i + 1;
        }
        if aborted {
            self.leading = false;
        }
    }

    /// Handles a proposal: the leader opens the next slot and drives phase
    /// 2 for the value; a follower forwards it to the believed leader, or
    /// buffers it until leadership is known.
    pub fn on_proposal(&mut self, value: Value, metas: CommandMetas)
        requires
            old(self).wf(),
        ensures
            final(self).wf(),
            resolved_preserved(old(self).window@, final(self).window@),
            floor_le(old(self).promised, final(self).promised),
            old(self).outbound@.is_prefix_of(final(self).outbound@),
            *final(self) == (PaxosReplica {
                window: final(self).window,
                promised: final(self).promised,
                buffered: final(self).buffered,
                outbound: final(self).outbound,
                ..*old(self)
            }),
            // a follower forwards the value to the floor's issuer when it
            // knows one, else buffers it; a leader without a ballot buffers
            !old(self).leading && (match old(self).promised {
                Some(b) => b.1 != old(self).config.current_spec(),
                None => false,
            }) ==> *final(self) == (PaxosReplica { outbound: final(self).outbound, ..*old(self) })
                && final(self).outbound@.len() == old(self).outbound@.len() + 1 && env_views(
                final(self).outbound@,
            ).last() == (
                old(self).promised->Some_0.1,
                CommandV::Proposal { payload: bytes_view(value) },
            ),
            (!old(self).leading && (match old(self).promised {
                Some(b) => b.1 == old(self).config.current_spec(),
                None => true,
            })) || (old(self).leading && old(self).current_ballot is None) ==> *final(self) == (
            PaxosReplica { buffered: final(self).buffered, ..*old(self) }) && final(self).buffered@.len() == old(self).buffered@.len() + 1 && (forall|k: int|
                0 <= k < old(self).buffered@.len() ==> final(self).buffered@[k] == old(
                    self,
                ).buffered@[k]) && bytes_view(final(self).buffered@.last()) == bytes_view(value),
            // a leader with a ballot drives phase 2: one ACCEPT per peer
            // carrying the value for the slot it opened
            old(self).leading && old(self).current_ballot is Some && old(self).window@.len()
                < usize::MAX - 1 && old(self).config.peer_ids().len() > 0 ==> final(self).outbound@.len() >= old(self).outbound@.len() + old(self).config.peer_ids().len() && (
            env_views(final(self).outbound@)[old(self).outbound@.len() as int].1 matches
                CommandV::Accept { ballot, slot_values } && ballot == old(
                self,
            ).current_ballot->Some_0 && slot_values.len() == 1 && slot_values[0].1 == bytes_view(
                value,
            ) && slot_values[0].0 <= old(self).window@.len()) && (forall|q: int|
                0 <= q < old(self).config.peer_ids().len() ==> #[trigger] env_views(
                    final(self).outbound@,
                )[old(self).outbound@.len() + q] == (
                old(self).config.peer_ids()[q],
                env_views(final(self).outbound@)[old(self).outbound@.len() as int].1,
                )),
    {
        let me = self.config.current();
        let cur = match &self.current_ballot {
            Some(b) => Some(*b),
            None => None,
        };
        if self.leading {
            match cur {
                Some(bal) => {
                    let n = self.window.len();
                    if n < usize::MAX - 1 {
                        let ghost wpre = self.window@;
                        let s = self.window.next_slot();
                        proof {
                            assert(resolved_preserved(wpre, self.window@));
                            assert forall|j: int|
                                0 <= j < self.window@.len() implies slot_under_floor(
                                #[trigger] self.window@[j],
                                self.promised,
                            ) by {
                                if 0 <= j < wpre.len() {
                                    assert(slot_under_floor(wpre[j], self.promised));
                                }
                                if j != s && j < wpre.len() {
                                    assert(self.window@[j] == wpre[j]);
                                    assert(slot_under_floor(self.window@[j], self.promised));
                                }
                            }
                        }
                        let ghost wmid = self.window@;
                        let vs = bytes_clone(&value);
                        let slot = self.window.slot_mut(s);
                        slot.start_accept(bal, vs);
                        proof {
                            assert(resolved_preserved(wmid, self.window@));
                            lemma_resolved_preserved_trans(wpre, wmid, self.window@);
                            assert forall|j: int|
                                0 <= j < self.window@.len() implies slot_under_floor(
                                #[trigger] self.window@[j],
                                self.promised,
                            ) by {
                                if 0 <= j < wpre.len() {
                                    assert(slot_under_floor(wpre[j], self.promised));
                                }
                                if j != s {
                                    assert(self.window@[j] == wmid[j]);
                                    assert(slot_under_floor(self.window@[j], self.promised));
                                } else {
                                    assert(wmid[j] == crate::slot::fresh_open_slot());
                                    assert(slot_under_floor(self.window@[j], self.promised));
                                }
                            }
                        }
                        let ghost vv = bytes_view(value);
                        let mut pairs: Vec<(Slot, Value)> = Vec::new();
                        pairs.push((s, value));
                        let wire = crate::commands::dup_pairs(&pairs);
                        let ghost wirev = crate::commands::pairs_view(wire@);
                        let ghost omid = self.outbound@;
                        self.broadcast(Command::Accept { payload: (bal, wire) }, &metas);
                        let ghost obro = self.outbound@;
                        proof {
                            assert(crate::commands::pairs_view(pairs@) =~= seq![(s, vv)]);
                            assert(wirev =~= seq![(s, vv)]);
                            let tail = old(self).config.peer_ids().map_values(
                                |n: NodeId|
                                    (
                                        n,
                                        CommandV::Accept { ballot: bal, slot_values: wirev },
                                    ),
                            );
                            assert(env_views(obro) =~= env_views(omid) + tail);
                            assert(env_views(omid).len() == omid.len());
                            assert forall|q: int|
                                0 <= q < old(self).config.peer_ids().len() implies #[trigger] env_views(
                                obro,
                            )[omid.len() + q] == (
                                old(self).config.peer_ids()[q],
                                CommandV::Accept { ballot: bal, slot_values: seq![(s, vv)] },
                            ) by {
                                assert(env_views(obro)[omid.len() + q] == tail[q]);
                                assert(tail[q] == (
                                    old(self).config.peer_ids()[q],
                                    CommandV::Accept { ballot: bal, slot_values: wirev },
                                ));
                            }
                        }
                        self.on_accept(bal, pairs, metas);
                        proof {
                            assert(env_views(obro).len() == obro.len());
                            assert forall|q: int|
                                0 <= q < old(self).config.peer_ids().len() implies #[trigger] env_views(
                                self.outbound@,
                            )[omid.len() + q] == (
                                old(self).config.peer_ids()[q],
                                CommandV::Accept { ballot: bal, slot_values: seq![(s, vv)] },
                            ) by {
                                assert(env_views(obro)[omid.len() + q] == (
                                    old(self).config.peer_ids()[q],
                                    CommandV::Accept {
                                        ballot: bal,
                                        slot_values: seq![(s, vv)],
                                    },
                                ));
                                assert(obro =~= self.outbound@.take(obro.len() as int));
                                assert(self.outbound@[omid.len() + q] == obro[omid.len() + q]);
                                assert(env_views(self.outbound@)[omid.len() + q] == env_views(
                                    obro,
                                )[omid.len() + q]);
                            }
                            assert(omid.len() == old(self).outbound@.len());
                            assert(self.outbound@.len() >= obro.len());
                            assert(obro.len() == omid.len() + old(
                                self,
                            ).config.peer_ids().len());
                            if old(self).config.peer_ids().len() > 0 {
                                assert(env_views(self.outbound@)[omid.len() as int + 0] == (
                                    old(self).config.peer_ids()[0],
                                    CommandV::Accept {
                                        ballot: bal,
                                        slot_values: seq![(s, vv)],
                                    },
                                ));
                                assert(env_views(self.outbound@)[old(
                                    self,
                                ).outbound@.len() as int] == (
                                    old(self).config.peer_ids()[0],
                                    CommandV::Accept {
                                        ballot: bal,
                                        slot_values: seq![(s, vv)],
                                    },
                                ));
                                assert(seq![(s, vv)][0] == (s, vv));
                                assert(s <= old(self).window@.len());
                            }
                        }
                    }
                },
                None => {
                    self.buffered.push(value);
                },
            }
        } else {
            let hint = self.leader_hint();
            match hint {
                Some(n) => {
                    if n != me {
                        self.send_to(n, Command::Proposal { payload: value }, metas);
                    } else {
                        self.buffered.push(value);
                    }
                },
                None => {
                    self.buffered.push(value);
                },
            }
        }
    }

    /// Handles a catchup request: answers with one RESOLUTION per
    /// requested slot this node has resolved, carrying that slot's own
    /// ballot and value.
    #[verifier::loop_isolation(false)]
    pub fn on_catchup(&mut self, node: NodeId, slots: Vec<Slot>, metas: CommandMetas)
        requires
            old(self).wf(),
        ensures
            final(self).wf(),
            *final(self) == (PaxosReplica { outbound: final(self).outbound, ..*old(self) }),
            old(self).outbound@.is_prefix_of(final(self).outbound@),
            // every reply is one RESOLUTION to the asker carrying a
            // requested slot's own decision
            forall|m: int|
                old(self).outbound@.len() <= m < final(self).outbound@.len() ==> (
                #[trigger] env_views(final(self).outbound@)[m]).0 == node && exists|k: int|
                    0 <= k < slots@.len() && slots@[k] < old(self).window@.len() && (decision_of(
                        old(self).window@[#[trigger] slots@[k] as int],
                    ) matches Some(d) && env_views(final(self).outbound@)[m].1 == (
                    CommandV::Resolution { ballot: d.0, slot_values: seq![(slots@[k], d.1)] })),
            // every requested resolved slot is answered
            forall|k: int|
                0 <= k < slots@.len() && (#[trigger] slots@[k]) < old(self).window@.len()
                    && old(self).window@[slots@[k] as int] is Resolved ==> exists|m: int|
                    old(self).outbound@.len() <= m < final(self).outbound@.len() && (
                    #[trigger] env_views(final(self).outbound@)[m]) == (
                    node,
                    CommandV::Resolution {
                        ballot: decision_of(old(self).window@[slots@[k] as int])->Some_0.0,
                        slot_values: seq![
                            (slots@[k], decision_of(old(self).window@[slots@[k] as int])->Some_0.1),
                        ],
                    },
                    ),
    {
        let mut i: usize = 0;
        while i < slots.len()
            invariant
                i <= slots@.len(),
                *self == (PaxosReplica { outbound: self.outbound, ..*old(self) }),
                old(self).outbound@.is_prefix_of(self.outbound@),
                forall|m: int|
                    old(self).outbound@.len() <= m < self.outbound@.len() ==> (
                    #[trigger] env_views(self.outbound@)[m]).0 == node && exists|k: int|
                        0 <= k < slots@.len() && slots@[k] < old(self).window@.len() && (decision_of(
                            old(self).window@[#[trigger] slots@[k] as int],
                        ) matches Some(d) && env_views(self.outbound@)[m].1 == (
                        CommandV::Resolution {
                            ballot: d.0,
                            slot_values: seq![(slots@[k], d.1)],
                        })),
                forall|k: int|
                    0 <= k < i && (#[trigger] slots@[k]) < old(self).window@.len() && old(
                        self,
                    ).window@[slots@[k] as int] is Resolved ==> exists|m: int|
                        old(self).outbound@.len() <= m < self.outbound@.len() && (
                        #[trigger] env_views(self.outbound@)[m]) == (
                        node,
                        CommandV::Resolution {
                            ballot: decision_of(old(self).window@[slots@[k] as int])->Some_0.0,
                            slot_values: seq![
                                (
                                    slots@[k],
                                    decision_of(old(self).window@[slots@[k] as int])->Some_0.1,
                                ),
                            ],
                        },
                        ),
            decreases slots@.len() - i,
        {
            let s = slots[i];
            let n = self.window.len();
            if s < n as u64 {
                let slot = self.window.slot_ref(s);
                match slot {
                    crate::slot::SlotState::Resolved { ballot, value } => {
                        let b = *ballot;
                        let v = bytes_clone(value);
                        let mut pair: Vec<(Slot, Value)> = Vec::new();
                        pair.push((s, v));
                        let ghost sent_pairs = crate::commands::pairs_view(pair@);
                        let ghost opre = self.outbound@;
                        self.send_to(
                            node,
                            Command::Resolution { payload: (b, pair) },
                            metas.dup(),
                        );
                        proof {
                            let last = self.outbound@.len() - 1;
                            assert(decision_of(old(self).window@[s as int]) == Some(
                                (b, bytes_view(*value)),
                            ));
                            assert(env_views(self.outbound@)[last].1 == (CommandV::Resolution {
                                ballot: b,
                                slot_values: seq![(s, bytes_view(*value))],
                            })) by {
                                assert(sent_pairs =~= seq![(s, bytes_view(*value))]);
                            }
                            assert forall|m: int|
                                old(self).outbound@.len() <= m < self.outbound@.len() implies (
                                #[trigger] env_views(self.outbound@)[m]).0 == node && exists|
                                k: int,
                            |
                                0 <= k < slots@.len() && slots@[k] < old(self).window@.len() && (
                                decision_of(
                                    old(self).window@[#[trigger] slots@[k] as int],
                                ) matches Some(d) && env_views(self.outbound@)[m].1 == (
                                CommandV::Resolution {
                                    ballot: d.0,
                                    slot_values: seq![(slots@[k], d.1)],
                                })) by {
                                if m < last {
                                    assert(env_views(self.outbound@)[m] == env_views(opre)[m]);
                                } else {
                                    assert(slots@[i as int] == s);
                                    assert(env_views(self.outbound@)[m].1 == (
                                        CommandV::Resolution {
                                            ballot: b,
                                            slot_values: seq![(s, bytes_view(*value))],
                                        }
                                    ));
                                }
                            }
                            assert forall|k: int|
                                0 <= k < i + 1 && (#[trigger] slots@[k]) < old(
                                    self,
                                ).window@.len() && old(self).window@[slots@[k] as int]
                                is Resolved implies exists|m: int|
                                old(self).outbound@.len() <= m < self.outbound@.len() && (
                                #[trigger] env_views(self.outbound@)[m]) == (
                                node,
                                CommandV::Resolution {
                                    ballot: decision_of(
                                        old(self).window@[slots@[k] as int],
                                    )->Some_0.0,
                                    slot_values: seq![
                                        (
                                            slots@[k],
                                            decision_of(
                                                old(self).window@[slots@[k] as int],
                                            )->Some_0.1,
                                        ),
                                    ],
                                },
                                ) by {
                                if k < i {
                                    let m0 = choose|m0: int|
                                        old(self).outbound@.len() <= m0 < opre.len() && (
                                        #[trigger] env_views(opre)[m0]) == (
                                        node,
                                        CommandV::Resolution {
                                            ballot: decision_of(
                                                old(self).window@[slots@[k] as int],
                                            )->Some_0.0,
                                            slot_values: seq![
                                                (
                                                    slots@[k],
                                                    decision_of(
                                                        old(self).window@[slots@[k] as int],
                                                    )->Some_0.1,
                                                ),
                                            ],
                                        },
                                        );
                                    assert(env_views(self.outbound@)[m0] == env_views(opre)[m0]);
                                } else {
                                    assert(env_views(self.outbound@)[last] == (
                                        node,
                                        CommandV::Resolution {
                                            ballot: b,
                                            slot_values: seq![(s, bytes_view(*value))],
                                        },
                                    ));
                                }
                            }
                        }
                    },
                    _ => {
                        proof {
                            assert(!(self.window@[s as int] is Resolved));
                        }
                    },
                }
            }
            i = i + 1;
        }
    }

    /// Starts a leadership attempt: a ballot above every round seen so
    /// far, phase 1 on every open slot (opening the first unresolved slot
    /// if none is open), a PREPARE broadcast to all peers, and this node's
    /// own promise counted directly.
    #[verifier::loop_isolation(false)]
    pub fn start_leadership(&mut self, metas: CommandMetas)
        requires
            old(self).wf(),
        ensures
            final(self).wf(),
            resolved_preserved(old(self).window@, final(self).window@),
            floor_le(old(self).promised, final(self).promised),
            old(self).outbound@.is_prefix_of(final(self).outbound@),
            *final(self) == (PaxosReplica {
                window: final(self).window,
                promised: final(self).promised,
                current_ballot: final(self).current_ballot,
                leading: final(self).leading,
                buffered: final(self).buffered,
                outbound: final(self).outbound,
                ..*old(self)
            }),
            // the attempt drives a ballot of this node strictly above every
            // round seen; at the round ceiling nothing changes
            highest_round_of(*old(self)) < u32::MAX ==> final(self).current_ballot == Some(
                Ballot(
                    (highest_round_of(*old(self)) + 1) as u32,
                    old(self).config.current_spec(),
                ),
            ),
            highest_round_of(*old(self)) == u32::MAX ==> *final(self) == *old(self),
            // phase 1 entered everywhere: every open slot of the window
            // drives the new ballot
            highest_round_of(*old(self)) < u32::MAX ==> window_drives(
                final(self).window@,
                Ballot(
                    (highest_round_of(*old(self)) + 1) as u32,
                    old(self).config.current_spec(),
                ),
            ),
            // one PREPARE for the new ballot is queued to every peer
            highest_round_of(*old(self)) < u32::MAX ==> final(self).outbound@.len() >= old(
                self,
            ).outbound@.len() + old(self).config.peer_ids().len() && (forall|q: int|
                0 <= q < old(self).config.peer_ids().len() ==> #[trigger] env_views(
                    final(self).outbound@,
                )[old(self).outbound@.len() + q] == (
                old(self).config.peer_ids()[q],
                CommandV::Prepare {
                    ballot: Ballot(
                        (highest_round_of(*old(self)) + 1) as u32,
                        old(self).config.current_spec(),
                    ),
                },
                )),
    {
        let me = self.config.current();
        let mut round: u32 = self.observed_round;
        match &self.promised {
            Some(p) => {
                if p.0 > round {
                    round = p.0;
                }
            },
            None => {},
        }
        match &self.current_ballot {
            Some(c) => {
                if c.0 > round {
                    round = c.0;
                }
            },
            None => {},
        }
        if round == u32::MAX {
            return ;
        }
        let bal = Ballot(round + 1, me);
        self.current_ballot = Some(bal);
        self.leading = false;
        let fu = self.window.first_unresolved();
        let ghost wpre0 = self.window@;
        let ok = self.window.ensure_open(fu);
        proof {
            assert(resolved_preserved(wpre0, self.window@));
            assert forall|j: int|
                0 <= j < self.window@.len() implies slot_under_floor(
                #[trigger] self.window@[j],
                self.promised,
            ) by {
                if !(ok && (j >= wpre0.len() || j == fu)) {
                    assert(self.window@[j] == wpre0[j]);
                    assert(slot_under_floor(self.window@[j], self.promised));
                }
            }
        }
        let ghost wopen = self.window@;
        let len = self.window.len();
        let mut i: usize = 0;
        while i < len
            invariant
                i <= len,
                len == self.window@.len(),
                *self == (PaxosReplica {
                    window: self.window,
                    current_ballot: Some(bal),
                    leading: false,
                    ..*old(self)
                }),
                self.window.quorum == old(self).window.quorum,
                self.window.wf(),
                resolved_preserved(old(self).window@, self.window@),
                forall|j: int|
                    0 <= j < self.window@.len() ==> slot_under_floor(
                        #[trigger] self.window@[j],
                        self.promised,
                    ),
                forall|j: int|
                    0 <= j < i ==> match #[trigger] self.window@[j] {
                        SlotV::Open { proposer, .. } => proposer.ballot == Some(bal),
                        _ => true,
                    },
                forall|j: int| i <= j < len ==> #[trigger] self.window@[j] == wopen[j],
            decreases len - i,
        {
            let ghost wpre = self.window@;
            let slot = self.window.slot_mut(i as u64);
            slot.start_prepare(bal);
            proof {
                assert(resolved_preserved(wpre, self.window@));
                lemma_resolved_preserved_trans(old(self).window@, wpre, self.window@);
                assert forall|j: int|
                    0 <= j < self.window@.len() implies slot_under_floor(
                    #[trigger] self.window@[j],
                    self.promised,
                ) by {
                    if 0 <= j < wpre.len() {
                        assert(slot_under_floor(wpre[j], self.promised));
                    }
                    if j != i {
                        assert(self.window@[j] == wpre[j]);
                        assert(slot_under_floor(self.window@[j], self.promised));
                    }
                }
                assert forall|j: int|
                    0 <= j < i + 1 implies match #[trigger] self.window@[j] {
                    SlotV::Open { proposer, .. } => proposer.ballot == Some(bal),
                    _ => true,
                } by {
                    if j < i {
                        assert(self.window@[j] == wpre[j]);
                    }
                }
                assert forall|j: int|
                    i + 1 <= j < len implies #[trigger] self.window@[j] == wopen[j] by {
                    assert(self.window@[j] == wpre[j]);
                }
            }
            i = i + 1;
        }
        proof {
            assert(window_drives(self.window@, bal));
        }
        let mut h: u64 = 0;
        while h < len as u64 && self.buffered.len() > 0
            invariant
                h <= len as u64,
                len == self.window@.len(),
                *self == (PaxosReplica {
                    window: self.window,
                    buffered: self.buffered,
                    current_ballot: Some(bal),
                    leading: false,
                    ..*old(self)
                }),
                self.window.quorum == old(self).window.quorum,
                self.window.wf(),
                resolved_preserved(old(self).window@, self.window@),
                forall|j: int|
                    0 <= j < self.window@.len() ==> slot_under_floor(
                        #[trigger] self.window@[j],
                        self.promised,
                    ),
                window_drives(self.window@, bal),
            decreases len - h,
        {
            let is_open = matches!(
                self.window.slot_ref(h),
                crate::slot::SlotState::Open { .. }
            );
            if is_open {
                let v = self.buffered.remove(0);
                let ghost wpre = self.window@;
                let slot = self.window.slot_mut(h);
                slot.set_value_hint(v);
                proof {
                    assert forall|j: int|
                        0 <= j < self.window@.len() implies match #[trigger] self.window@[j] {
                        SlotV::Open { proposer, .. } => proposer.ballot == Some(bal),
                        _ => true,
                    } by {
                        assert(window_drives(wpre, bal));
                        if j != h {
                            assert(self.window@[j] == wpre[j]);
                        }
                    }
                    assert(resolved_preserved(wpre, self.window@));
                    lemma_resolved_preserved_trans(old(self).window@, wpre, self.window@);
                    assert forall|j: int|
                        0 <= j < self.window@.len() implies slot_under_floor(
                        #[trigger] self.window@[j],
                        self.promised,
                    ) by {
                        if 0 <= j < wpre.len() {
                            assert(slot_under_floor(wpre[j], self.promised));
                        }
                        if j != h {
                            assert(self.window@[j] == wpre[j]);
                        }
                        assert(slot_under_floor(self.window@[j], self.promised));
                    }
                }
            }
            h = h + 1;
        }
        let ghost omid = self.outbound@;
        self.broadcast(Command::Prepare { payload: bal }, &metas);
        let ghost obro = self.outbound@;
        proof {
            let tail = old(self).config.peer_ids().map_values(
                |nd: NodeId| (nd, CommandV::Prepare { ballot: bal }),
            );
            assert(env_views(obro) =~= env_views(omid) + tail);
            assert(env_views(omid).len() == omid.len());
            assert forall|q: int|
                0 <= q < old(self).config.peer_ids().len() implies #[trigger] env_views(
                obro,
            )[omid.len() + q] == (
                old(self).config.peer_ids()[q],
                CommandV::Prepare { ballot: bal },
            ) by {
                assert(env_views(obro)[omid.len() + q] == tail[q]);
            }
        }
        self.on_prepare(bal, metas);
        proof {
            assert(env_views(obro).len() == obro.len());
            assert forall|q: int|
                0 <= q < old(self).config.peer_ids().len() implies #[trigger] env_views(
                self.outbound@,
            )[omid.len() + q] == (
                old(self).config.peer_ids()[q],
                CommandV::Prepare { ballot: bal },
            ) by {
                assert(env_views(obro)[omid.len() + q] == (
                    old(self).config.peer_ids()[q],
                    CommandV::Prepare { ballot: bal },
                ));
                assert(obro =~= self.outbound@.take(obro.len() as int));
                assert(self.outbound@[omid.len() + q] == obro[omid.len() + q]);
                assert(env_views(self.outbound@)[omid.len() + q] == env_views(obro)[omid.len()
                    + q]);
            }
            assert(omid.len() == old(self).outbound@.len());
            assert(self.outbound@.len() >= obro.len());
        }
    }

    /// Drives timeouts: counts how long the first unresolved slot has
    /// been blocking, lets the leader propose a no-op there after a
    /// bounded lapse, re-broadcasts the PREPARE while leadership is still
    /// being sought, and asks peers in turn for missing resolutions.
    pub fn on_tick(&mut self, metas: CommandMetas)
        requires
            old(self).wf(),
        ensures
            final(self).wf(),
            resolved_preserved(old(self).window@, final(self).window@),
            floor_le(old(self).promised, final(self).promised),
            old(self).outbound@.is_prefix_of(final(self).outbound@),
            final(self).tick_count == (if old(self).tick_count < u64::MAX {
                old(self).tick_count + 1
            } else {
                u64::MAX as int
            }),
            // the stall watch tracks the first unresolved slot: the count
            // grows while it stays put and restarts when it moves or when
            // the leader just re-drove it
            final(self).stalled_at as int == crate::window::first_unresolved_spec(
                old(self).window@,
            ),
            final(self).stall_ticks as int == (if crate::window::first_unresolved_spec(
                old(self).window@,
            ) == old(self).stalled_at as int {
                if old(self).stall_ticks < u64::MAX {
                    old(self).stall_ticks + 1
                } else {
                    u64::MAX as int
                }
            } else {
                0
            }) || final(self).stall_ticks == 0,
            // what a tick queues, per path: the candidate's PREPARE to
            // every peer at the cadence; one catchup request for the
            // blocking slot to the peer whose turn it is; the leader's
            // re-driven ACCEPT for the blocking slot to every peer
            tick_retransmits(*old(self)) ==> final(self).outbound@.len() >= old(
                self,
            ).outbound@.len() + old(self).config.peer_ids().len() && (forall|q: int|
                0 <= q < old(self).config.peer_ids().len() ==> #[trigger] env_views(
                    final(self).outbound@,
                )[old(self).outbound@.len() + q] == (
                old(self).config.peer_ids()[q],
                CommandV::Prepare { ballot: old(self).current_ballot->Some_0 },
                )),
            tick_requests_catchup(*old(self)) ==> final(self).outbound@.len() > old(
                self,
            ).outbound@.len() && env_views(final(self).outbound@).last() == (
                old(self).config.peer_ids()[tick_count_after(*old(self)) % old(
                    self,
                ).config.peer_ids().len() as int],
                CommandV::Catchup {
                    node: old(self).config.current_spec(),
                    slots: seq![
                        crate::window::first_unresolved_spec(old(self).window@) as Slot,
                    ],
                },
            ),
            tick_redrives(*old(self)) ==> final(self).stall_ticks == 0 && final(self).outbound@.len() >= old(self).outbound@.len() + old(
                self,
            ).config.peer_ids().len() && (forall|q: int|
                0 <= q < old(self).config.peer_ids().len() ==> #[trigger] env_views(
                    final(self).outbound@,
                )[old(self).outbound@.len() + q] == (
                old(self).config.peer_ids()[q],
                CommandV::Accept {
                    ballot: old(self).current_ballot->Some_0,
                    slot_values: seq![
                        (
                            crate::window::first_unresolved_spec(old(self).window@) as Slot,
                            redrive_value(*old(self)),
                        ),
                    ],
                },
                )),
            // a follower's tick only sends; its window, floor, roles and
            // stall count are untouched beyond the watch above
            !old(self).leading ==> final(self).window@ == old(self).window@ && final(self).promised
                == old(self).promised && final(self).leading == old(self).leading && final(self).buffered@ == old(self).buffered@ && final(self).stall_ticks as int == (if crate::window::first_unresolved_spec(
                old(self).window@,
            ) == old(self).stalled_at as int {
                if old(self).stall_ticks < u64::MAX {
                    old(self).stall_ticks + 1
                } else {
                    u64::MAX as int
                }
            } else {
                0
            }),
    {
        if self.tick_count < u64::MAX {
            self.tick_count = self.tick_count + 1;
        }
        let fu = self.window.first_unresolved();
        if fu == self.stalled_at {
            if self.stall_ticks < u64::MAX {
                self.stall_ticks = self.stall_ticks + 1;
            }
        } else {
            self.stalled_at = fu;
            self.stall_ticks = 0;
        }
        let cur = match &self.current_ballot {
            Some(b) => Some(*b),
            None => None,
        };
        let n = self.window.len();
        if self.leading {
            match cur {
                Some(bal) => {
                    if self.stall_ticks >= GAP_FILL_TICKS && fu < n as u64 {
                        let ghost wpre0 = self.window@;
                        let opened = self.window.ensure_open(fu);
                        proof {
                            assert(opened);
                            assert(resolved_preserved(wpre0, self.window@));
                            assert forall|j: int|
                                0 <= j < self.window@.len() implies slot_under_floor(
                                #[trigger] self.window@[j],
                                self.promised,
                            ) by {
                                if 0 <= j < wpre0.len() {
                                    assert(slot_under_floor(wpre0[j], self.promised));
                                }
                                if j != fu {
                                    assert(self.window@[j] == wpre0[j]);
                                }
                            }
                        }
                        // re-drive the blocking slot: its in-flight value
                        // if its proposer holds one (an ACCEPT may have been
                        // lost), else a no-op value to fill the hole
                        proof {
                            crate::window::lemma_first_unresolved_spec(old(self).window@);
                            assert(self.window@[fu as int] == materialized(
                                old(self).window@,
                                fu,
                            ));
                            assert(!(old(self).window@[fu as int] is Resolved));
                            assert(materialized(old(self).window@, fu) is Open);
                        }
                        let value = match self.window.slot_ref(fu).proposing_value() {
                            Some(v) => v,
                            None => crate::value::bytes_new(),
                        };
                        proof {
                            assert(bytes_view(value) == redrive_value(*old(self)));
                        }
                        let open = matches!(
                            self.window.slot_ref(fu),
                            crate::slot::SlotState::Open { .. }
                        );
                        if open {
                            let ghost wpre = self.window@;
                            let vs = bytes_clone(&value);
                            let slot = self.window.slot_mut(fu);
                            slot.start_accept(bal, vs);
                            proof {
                                assert(resolved_preserved(wpre, self.window@));
                                assert forall|j: int|
                                    0 <= j < self.window@.len() implies slot_under_floor(
                                    #[trigger] self.window@[j],
                                    self.promised,
                                ) by {
                                    if 0 <= j < wpre.len() {
                                        assert(slot_under_floor(wpre[j], self.promised));
                                    }
                                    if j != fu {
                                        assert(self.window@[j] == wpre[j]);
                                        assert(slot_under_floor(self.window@[j], self.promised));
                                    }
                                }
                            }
                            let ghost vv = bytes_view(value);
                            let mut pairs: Vec<(Slot, Value)> = Vec::new();
                            pairs.push((fu, value));
                            let wire = crate::commands::dup_pairs(&pairs);
                            let ghost wirev = crate::commands::pairs_view(wire@);
                            let ghost omid = self.outbound@;
                            self.broadcast(Command::Accept { payload: (bal, wire) }, &metas);
                            let ghost obro = self.outbound@;
                            proof {
                                assert(crate::commands::pairs_view(pairs@) =~= seq![(fu, vv)]);
                                assert(wirev =~= seq![(fu, vv)]);
                                let tail = old(self).config.peer_ids().map_values(
                                    |nd: NodeId|
                                        (
                                            nd,
                                            CommandV::Accept {
                                                ballot: bal,
                                                slot_values: wirev,
                                            },
                                        ),
                                );
                                assert(env_views(obro) =~= env_views(omid) + tail);
                                assert(env_views(omid).len() == omid.len());
                                assert forall|q: int|
                                    0 <= q < old(self).config.peer_ids().len() implies #[trigger] env_views(
                                    obro,
                                )[omid.len() + q] == (
                                    old(self).config.peer_ids()[q],
                                    CommandV::Accept {
                                        ballot: bal,
                                        slot_values: seq![(fu, vv)],
                                    },
                                ) by {
                                    assert(env_views(obro)[omid.len() + q] == tail[q]);
                                }
                            }
                            self.on_accept(bal, pairs, metas);
                            proof {
                                assert(env_views(obro).len() == obro.len());
                                assert forall|q: int|
                                    0 <= q < old(self).config.peer_ids().len() implies #[trigger] env_views(
                                    self.outbound@,
                                )[omid.len() + q] == (
                                    old(self).config.peer_ids()[q],
                                    CommandV::Accept {
                                        ballot: bal,
                                        slot_values: seq![(fu, vv)],
                                    },
                                ) by {
                                    assert(env_views(obro)[omid.len() + q] == (
                                        old(self).config.peer_ids()[q],
                                        CommandV::Accept {
                                            ballot: bal,
                                            slot_values: seq![(fu, vv)],
                                        },
                                    ));
                                    assert(obro =~= self.outbound@.take(obro.len() as int));
                                    assert(self.outbound@[omid.len() + q] == obro[omid.len()
                                        + q]);
                                    assert(env_views(self.outbound@)[omid.len() + q]
                                        == env_views(obro)[omid.len() + q]);
                                }
                                assert(omid.len() == old(self).outbound@.len());
                                assert(self.outbound@.len() >= obro.len());
                            }
                            self.stall_ticks = 0;
                        }
                    }
                },
                None => {},
            }
        } else {
            match cur {
                Some(bal) => {
                    if bal.1 == self.config.current() && self.tick_count % RETRANSMIT_TICKS == 0 {
                        self.broadcast(Command::Prepare { payload: bal }, &metas);
                    }
                },
                None => {},
            }
            if self.stall_ticks >= CATCHUP_TICKS && fu < n as u64 {
                let peers = self.config.peer_id_list();
                if peers.len() > 0 {
                    let idx = (self.tick_count % (peers.len() as u64)) as usize;
                    let me = self.config.current();
                    let mut want: Vec<Slot> = Vec::new();
                    want.push(fu);
                    self.send_to(
                        peers[idx],
                        Command::Catchup { payload: (me, want) },
                        metas,
                    );
                }
            }
        }
    }
}

impl Commander for PaxosReplica {
    /// A commander is well formed as a replica.
    open spec fn c_wf(&self) -> bool {
        self.wf()
    }

    fn proposal(&mut self, val: Value, cmd_metas: CommandMetas) {
        self.on_proposal(val, cmd_metas);
    }

    fn prepare(&mut self, bal: Ballot, cmd_metas: CommandMetas) {
        self.on_prepare(bal, cmd_metas);
    }

    fn promise(
        &mut self,
        node: NodeId,
        bal: Ballot,
        accepted: Vec<(Slot, Ballot, Value)>,
        cmd_metas: CommandMetas,
    ) {
        self.on_promise(node, bal, accepted, cmd_metas);
    }

    fn accept(&mut self, bal: Ballot, slot_values: Vec<(Slot, Value)>, cmd_metas: CommandMetas) {
        self.on_accept(bal, slot_values, cmd_metas);
    }

    fn reject(&mut self, node: NodeId, proposed: Ballot, preempted: Ballot, cmd_metas: CommandMetas) {
        self.on_reject(node, proposed, preempted, cmd_metas);
    }

    fn accepted(&mut self, node: NodeId, bal: Ballot, slots: Vec<Slot>, cmd_metas: CommandMetas) {
        self.on_accepted(node, bal, slots, cmd_metas);
    }

    fn resolution(&mut self, bal: Ballot, values: Vec<(Slot, Value)>, cmd_metas: CommandMetas) {
        self.on_resolution(bal, values, cmd_metas);
    }

    fn catchup(&mut self, node: NodeId, slots: Vec<Slot>, cmd_metas: CommandMetas) {
        self.on_catchup(node, slots, cmd_metas);
    }
}

impl Receiver for PaxosReplica {
    /// A receiver is well formed as a replica.
    open spec fn wf(&self) -> bool {
        PaxosReplica::wf(self)
    }

    /// Dispatches a wire command to the reactor its variant names, with
    /// the payload unchanged. Whatever the command, nothing resolved is
    /// reverted and the promise floor never decreases; each variant's key
    /// effect is restated here over the command's view.
    fn receive(&mut self, command: Command, cmd_metas: CommandMetas)
        ensures
            resolved_preserved(old(self).window@, final(self).window@),
            floor_le(old(self).promised, final(self).promised),
            old(self).outbound@.is_prefix_of(final(self).outbound@),
            // a resolution decides every listed slot in reach, exactly
            command@ matches CommandV::Resolution { ballot, slot_values } ==> *final(self) == (
            PaxosReplica { window: final(self).window, ..*old(self) }) && (forall|k: int|
                0 <= k < slot_values.len() && (#[trigger] slot_values[k]).0 < old(
                    self,
                ).window@.len() + WINDOW_AHEAD ==> slot_values[k].0 < final(self).window@.len()
                    && final(self).window@[slot_values[k].0 as int] is Resolved) && ((forall|
                k1: int,
                k2: int,
            |
                0 <= k1 < k2 < slot_values.len() ==> (#[trigger] slot_values[k1]).0 != (
                #[trigger] slot_values[k2]).0) ==> forall|k: int|
                0 <= k < slot_values.len() && (#[trigger] slot_values[k]).0 < old(
                    self,
                ).window@.len() + WINDOW_AHEAD ==> decision_of(
                    final(self).window@[slot_values[k].0 as int],
                ) == (if slot_values[k].0 < old(self).window@.len() && old(self).window@[
                    slot_values[k].0 as int
                ] is Resolved {
                    decision_of(old(self).window@[slot_values[k].0 as int])
                } else {
                    Some((ballot, slot_values[k].1))
                })),
            // a prepare that beats the floor raises it; one that loses
            // changes nothing but the queued reject
            command@ matches CommandV::Prepare { ballot } ==> ((match old(self).promised {
                None => true,
                Some(p) => p.lt_spec(ballot),
            }) ==> final(self).promised == Some(ballot)) && (!(match old(self).promised {
                None => true,
                Some(p) => p.lt_spec(ballot),
            }) ==> *final(self) == (PaxosReplica {
                outbound: final(self).outbound,
                ..*old(self)
            })),
            // an accept at or above the floor moves it there; below, nothing
            // changes but the queued reject
            command@ matches CommandV::Accept { ballot, slot_values } ==> (floor_le(
                old(self).promised,
                Some(ballot),
            ) ==> final(self).promised == Some(ballot)) && (!floor_le(
                old(self).promised,
                Some(ballot),
            ) ==> *final(self) == (PaxosReplica {
                outbound: final(self).outbound,
                ..*old(self)
            })),
            // a reject steps every slot's proposer and drops leadership
            // exactly on a completed reject quorum
            command@ matches CommandV::Reject { node, proposed, preempted } ==> final(self).window@.len() == old(self).window@.len() && (forall|j: int|
                0 <= j < old(self).window@.len() ==> final(self).window@[j] == slot_reject_sweep(
                    #[trigger] old(self).window@[j],
                    node,
                    proposed,
                    old(self).config.quorum_size_spec(),
                )) && final(self).leading == (old(self).leading && !(exists|j: int|
                0 <= j < old(self).window@.len() && slot_reject_aborts(
                    #[trigger] old(self).window@[j],
                    node,
                    proposed,
                    old(self).config.quorum_size_spec(),
                ))),
            // an accepted tally never touches the floor or the window size
            command@ is Accepted ==> final(self).promised == old(self).promised && final(self).window@.len() == old(self).window@.len() && *final(self) == (PaxosReplica {
                window: final(self).window,
                outbound: final(self).outbound,
                ..*old(self)
            }),
            // a catchup request only queues replies
            command@ is Catchup ==> *final(self) == (PaxosReplica {
                outbound: final(self).outbound,
                ..*old(self)
            }),
            // a winning prepare from a peer steps every slot's acceptor
            command@ matches CommandV::Prepare { ballot } ==> ((match old(self).promised {
                None => true,
                Some(p) => p.lt_spec(ballot),
            }) && ballot.1 != old(self).config.current_spec() ==> final(self).window@.len() == old(
                self,
            ).window@.len() && (forall|j: int|
                0 <= j < old(self).window@.len() ==> final(self).window@[j]
                    == slot_prepare_sweep(#[trigger] old(self).window@[j], ballot))),
            // a tolerable accept steps every listed slot within reach and
            // leaves unlisted slots alone
            command@ matches CommandV::Accept { ballot, slot_values } ==> (floor_le(
                old(self).promised,
                Some(ballot),
            ) && ballot.1 != old(self).config.current_spec() && (forall|k1: int, k2: int|
                0 <= k1 < k2 < slot_values.len() ==> (#[trigger] slot_values[k1]).0 != (
                #[trigger] slot_values[k2]).0) ==> forall|k: int|
                0 <= k < slot_values.len() && (#[trigger] slot_values[k]).0 < old(
                    self,
                ).window@.len() + WINDOW_AHEAD ==> slot_values[k].0 < final(self).window@.len()
                    && final(self).window@[slot_values[k].0 as int] == slot_accept_sweep(
                    materialized(old(self).window@, slot_values[k].0),
                    ballot,
                    slot_values[k].1,
                )),
            // an accepted tally takes the whole per-slot effect
            command@ matches CommandV::Accepted { node, ballot, slots } ==> (slots_distinct(slots)
                ==> forall|k: int|
                0 <= k < slots.len() && (#[trigger] slots[k]) < old(self).window@.len() ==> final(self).window@[slots[k] as int] == slot_accepted_outcome(
                    old(self).window@[slots[k] as int],
                    node,
                    ballot,
                    old(self).config.quorum_size_spec(),
                )),
            // a promise for a ballot this node does not drive changes
            // nothing; one for the driven ballot counts it on every slot
            // that does not cross
            command@ matches CommandV::Promise { ballot, .. } ==> (old(self).current_ballot
                != Some(ballot) ==> *final(self) == *old(self)),
            command@ matches CommandV::Promise { node, ballot, accepted } ==> (old(
                self,
            ).current_ballot == Some(ballot) ==> forall|j: int|
                0 <= j < old(self).window@.len() && !(old(self).window@[j] is Empty)
                    && !slot_promise_crosses(
                    old(self).window@[j],
                    node,
                    ballot,
                    old(self).config.quorum_size_spec(),
                ) ==> #[trigger] final(self).window@[j] == slot_promise_sweep(
                    old(self).window@[j],
                    node,
                    ballot,
                    promise_entry_for(accepted, j as Slot),
                    old(self).config.quorum_size_spec(),
                )),
            // a proposal moves only the window, floor, buffer and queue
            command@ is Proposal ==> *final(self) == (PaxosReplica {
                window: final(self).window,
                promised: final(self).promised,
                buffered: final(self).buffered,
                outbound: final(self).outbound,
                ..*old(self)
            }),
    {
        match command {
            Command::Proposal { payload } => self.on_proposal(payload, cmd_metas),
            Command::Prepare { payload } => self.on_prepare(payload, cmd_metas),
            Command::Promise { payload } => {
                let (node, bal, accepted) = payload;
                self.on_promise(node, bal, accepted, cmd_metas);
            },
            Command::Accept { payload } => {
                let ghost sv = command@->Accept_slot_values;
                let (bal, slot_values) = payload;
                let ghost vv = slot_values@;
                self.on_accept(bal, slot_values, cmd_metas);
                proof {
                    assert(sv =~= crate::commands::pairs_view(vv));
                    if forall|k1: int, k2: int|
                        0 <= k1 < k2 < sv.len() ==> (#[trigger] sv[k1]).0 != (
                        #[trigger] sv[k2]).0 {
                        assert(pairs_slots_distinct(vv)) by {
                            assert forall|k1: int, k2: int|
                                0 <= k1 < k2 < vv.len() implies (#[trigger] vv[k1]).0 != (
                                #[trigger] vv[k2]).0 by {
                                assert(sv[k1].0 == vv[k1].0);
                                assert(sv[k2].0 == vv[k2].0);
                            }
                        }
                    }
                }
            },
            Command::Reject { payload } => {
                let (node, proposed, preempted) = payload;
                self.on_reject(node, proposed, preempted, cmd_metas);
            },
            Command::Accepted { payload } => {
                let (node, bal, slots) = payload;
                self.on_accepted(node, bal, slots, cmd_metas);
            },
            Command::Resolution { payload } => {
                let ghost sv = command@->Resolution_slot_values;
                let (bal, values) = payload;
                let ghost vv = values@;
                self.on_resolution(bal, values, cmd_metas);
                proof {
                    assert(sv =~= crate::commands::pairs_view(vv));
                    assert forall|k1: int, k2: int|
                        0 <= k1 < k2 < sv.len() && pairs_slots_distinct(vv) implies (
                        #[trigger] sv[k1]).0 != (#[trigger] sv[k2]).0 by {}
                    if forall|k1: int, k2: int|
                        0 <= k1 < k2 < sv.len() ==> (#[trigger] sv[k1]).0 != (
                        #[trigger] sv[k2]).0 {
                        assert(pairs_slots_distinct(vv)) by {
                            assert forall|k1: int, k2: int|
                                0 <= k1 < k2 < vv.len() implies (#[trigger] vv[k1]).0 != (
                                #[trigger] vv[k2]).0 by {
                                assert(sv[k1].0 == vv[k1].0);
                                assert(sv[k2].0 == vv[k2].0);
                            }
                        }
                    }
                }
            },
            Command::Catchup { payload } => {
                let (node, slots) = payload;
                self.on_catchup(node, slots, cmd_metas);
            },
        }
    }
}

impl crate::Replica for PaxosReplica {
    /// This node leads while some slot of its window sits in phase 2
    /// under its own ballot and no reject quorum has been seen.
    open spec fn leader_spec(&self) -> bool {
        self.leading
    }

    /// The window's resolved slots with their values, in slot order.
    open spec fn decisions_spec(&self) -> Seq<(Slot, Seq<u8>)> {
        crate::window::decisions_spec_of(self.window@)
    }

    fn propose_leadership(&mut self, cmd_metas: CommandMetas) {
        self.start_leadership(cmd_metas);
    }

    fn is_leader(&self) -> (r: bool) {
        self.leading
    }

    fn tick(&mut self, cmd_metas: CommandMetas) {
        self.on_tick(cmd_metas);
    }

    fn decisions(&self) -> (d: DecisionSet) {
        self.window.decisions()
    }
}

} // verus!
