//! The sliding decision window: the slots of the log held in memory, the
//! allocation of fresh slots, and the ordered view over resolved decisions.

use vstd::prelude::*;
use crate::Slot;
use crate::value::{bytes_clone, bytes_view, Value};
use crate::slot::{decision_of, fresh_open_slot, SlotState, SlotV};

verus! {

/// How far beyond the materialized window a referenced slot may lie and
/// still be created; farther slots are dropped and left to catchup.
pub const WINDOW_AHEAD: u64 = 1024;

/// The slots of the log held in memory, dense from slot 0.
pub struct SlotWindow {
    /// The quorum size slots decide with.
    pub quorum: usize,
    /// Slot `s` of the log is `slots[s]`.
    pub slots: Vec<SlotState>,
}

impl View for SlotWindow {
    type V = Seq<SlotV>;

    open spec fn view(&self) -> Seq<SlotV> {
        self.slots@.map_values(|s: SlotState| s@)
    }
}

impl SlotWindow {
    /// A window is well formed when each slot is and the quorum is
    /// meaningful.
    pub open spec fn wf(&self) -> bool {
        &&& self.quorum >= 1
        &&& forall|i: int| 0 <= i < self.slots@.len() ==> (#[trigger] self.slots@[i]).wf()
    }

    /// An empty window deciding with the given quorum.
    pub fn new(quorum: usize) -> (w: SlotWindow)
        requires
            quorum >= 1,
        ensures
            w.wf(),
            w@.len() == 0,
            w.quorum == quorum,
    {
        SlotWindow { quorum, slots: Vec::new() }
    }

    /// Returns how many slots are materialized.
    pub fn len(&self) -> (n: usize)
        ensures
            n == self@.len(),
    {
        self.slots.len()
    }

    /// Returns the quorum size.
    pub fn quorum_size(&self) -> (q: usize)
        ensures
            q == self.quorum,
    {
        self.quorum
    }

    /// Borrows slot `s` for reading.
    pub fn slot_ref(&self, s: Slot) -> (r: &SlotState)
        requires
            s < self@.len(),
        ensures
            *r == self.slots@[s as int],
            r@ == self@[s as int],
            self.wf() ==> r.wf(),
    {
        let n = self.slots.len();
        &self.slots[s as usize]
    }

    /// Borrows slot `s` for a role transition. The window after the call
    /// holds whatever the slot was left as; everything else is unchanged.
    pub fn slot_mut(&mut self, s: Slot) -> (r: &mut SlotState)
        requires
            s < old(self)@.len(),
        ensures
            *r == old(self).slots@[s as int],
            old(self).wf() ==> r.wf(),
            final(self).slots@ == old(self).slots@.update(s as int, *final(r)),
            final(self)@ =~= old(self)@.update(s as int, final(r)@),
            final(self).quorum == old(self).quorum,
    {
        let n = self.slots.len();
        &mut self.slots[s as usize]
    }

    /// Opens the smallest untouched slot, materializing one at the top of
    /// the window if none is empty, and returns its number.
    #[verifier::loop_isolation(false)]
    pub fn next_slot(&mut self) -> (s: Slot)
        requires
            old(self).wf(),
            old(self)@.len() < usize::MAX,
        ensures
            final(self).wf(),
            final(self).quorum == old(self).quorum,
            s <= old(self)@.len(),
            forall|j: int| 0 <= j < s ==> !((#[trigger] old(self)@[j]) is Empty),
            s < old(self)@.len() ==> old(self)@[s as int] is Empty,
            final(self)@ == if s < old(self)@.len() {
                old(self)@.update(s as int, fresh_open_slot())
            } else {
                old(self)@.push(fresh_open_slot())
            },
    {
        let mut i: usize = 0;
        while i < self.slots.len()
            invariant
                i <= self.slots@.len(),
                *self == *old(self),
                forall|j: int| 0 <= j < i ==> !((#[trigger] self.slots@[j]@) is Empty),
            decreases self.slots@.len() - i,
        {
            let is_empty = matches!(&self.slots[i], SlotState::Empty);
            if is_empty {
                let fresh = SlotState::open_fresh();
                self.slots.set(i, fresh);
                proof {
                    assert(self@ =~= old(self)@.update(i as int, fresh_open_slot()));
                    assert forall|j: int|
                        0 <= j < self.slots@.len() implies (#[trigger] self.slots@[j]).wf() by {
                        if j != i {
                            assert(self.slots@[j] == old(self).slots@[j]);
                        }
                    }
                }
                return i as u64;
            }
            i = i + 1;
        }
        let fresh = SlotState::open_fresh();
        self.slots.push(fresh);
        proof {
            assert(self@ =~= old(self)@.push(fresh_open_slot()));
            assert forall|j: int|
                0 <= j < self.slots@.len() implies (#[trigger] self.slots@[j]).wf() by {
                if j < self.slots@.len() - 1 {
                    assert(self.slots@[j] == old(self).slots@[j]);
                }
            }
        }
        (self.slots.len() - 1) as u64
    }

    /// Materializes slot `s` and opens it if untouched. Returns `false`,
    /// changing nothing, when `s` lies too far beyond the window.
    #[verifier::loop_isolation(false)]
    pub fn ensure_open(&mut self, s: Slot) -> (ok: bool)
        requires
            old(self).wf(),
        ensures
            final(self).wf(),
            final(self).quorum == old(self).quorum,
            ok == (s < old(self)@.len() + WINDOW_AHEAD),
            !ok ==> final(self)@ == old(self)@,
            ok ==> final(self)@.len() == if s < old(self)@.len() {
                old(self)@.len() as int
            } else {
                s + 1
            },
            ok ==> forall|j: int|
                0 <= j < final(self)@.len() && j != s ==> final(self)@[j] == (if j < old(
                    self,
                )@.len() {
                    old(self)@[j]
                } else {
                    SlotV::Empty
                }),
            ok ==> final(self)@[s as int] == (if s < old(self)@.len() && !(old(
                self,
            )@[s as int] is Empty) {
                old(self)@[s as int]
            } else {
                fresh_open_slot()
            }),
    {
        let len64 = self.slots.len() as u64;
        if s >= len64 && s - len64 >= WINDOW_AHEAD {
            return false;
        }
        if s >= len64 {
            while (self.slots.len() as u64) <= s
                invariant
                    s >= old(self)@.len(),
                    old(self)@.len() <= self.slots@.len() <= s + 1,
                    self.wf(),
                    self.quorum == old(self).quorum,
                    forall|j: int|
                        0 <= j < self.slots@.len() ==> (#[trigger] self@[j]) == (if j < old(
                            self,
                        )@.len() {
                            old(self)@[j]
                        } else {
                            SlotV::Empty
                        }),
                decreases s - self.slots@.len() + 1,
            {
                let ghost prev = self.slots@;
                let ghost prevv = self@;
                self.slots.push(SlotState::Empty);
                proof {
                    assert forall|j: int|
                        0 <= j < self.slots@.len() implies (#[trigger] self@[j]) == (if j < old(
                            self,
                        )@.len() {
                            old(self)@[j]
                        } else {
                            SlotV::Empty
                        }) by {
                        if j < prev.len() {
                            assert(self.slots@[j] == prev[j]);
                            assert(self@[j] == prevv[j]);
                        } else {
                            assert(self.slots@[j] == SlotState::Empty);
                        }
                    }
                }
            }
        }
        let ghost grown = self@;
        let idx = s as usize;
        let is_empty = matches!(&self.slots[idx], SlotState::Empty);
        if is_empty {
            let fresh = SlotState::open_fresh();
            self.slots.set(idx, fresh);
            proof {
                assert forall|j: int|
                    0 <= j < self.slots@.len() && j != s implies (#[trigger] self@[j]) == grown[j]
                    by {}
                assert forall|j: int|
                    0 <= j < self.slots@.len() implies (#[trigger] self.slots@[j]).wf() by {
                    if j != s {
                        assert(self@[j] == grown[j]);
                    }
                }
            }
        }
        true
    }

    /// The smallest slot that is not resolved; the window length when every
    /// materialized slot is resolved.
    #[verifier::loop_isolation(false)]
    pub fn first_unresolved(&self) -> (s: Slot)
        ensures
            s <= self@.len(),
            forall|j: int| 0 <= j < s ==> (#[trigger] self@[j]) is Resolved,
            s < self@.len() ==> !(self@[s as int] is Resolved),
            s as int == first_unresolved_spec(self@),
    {
        proof {
            lemma_first_unresolved_spec(self@);
        }
        let mut i: usize = 0;
        while i < self.slots.len()
            invariant
                i <= self.slots@.len(),
                forall|j: int| 0 <= j < i ==> (#[trigger] self@[j]) is Resolved,
            decreases self.slots@.len() - i,
        {
            let resolved = matches!(&self.slots[i], SlotState::Resolved { .. });
            if !resolved {
                return i as u64;
            }
            i = i + 1;
        }
        self.slots.len() as u64
    }

    /// The ordered view over all resolved slots: each slot number with its
    /// decided value, in slot order.
    #[verifier::loop_isolation(false)]
    pub fn decisions(&self) -> (d: DecisionSet)
        ensures
            forall|k: int|
                0 <= k < d@.len() ==> 0 <= (#[trigger] d@[k]).0 < self@.len() && (decision_of(
                    self@[d@[k].0 as int],
                ) matches Some(p) && p.1 == d@[k].1),
            forall|j: int|
                0 <= j < self@.len() && (#[trigger] self@[j]) is Resolved ==> exists|k: int|
                    0 <= k < d@.len() && (#[trigger] d@[k]) == (
                    j as Slot,
                    decision_of(self@[j])->Some_0.1,
                    ),
            d.sorted(),
            d@ == decisions_spec_of(self@),
    {
        let mut entries: Vec<(Slot, Value)> = Vec::new();
        let mut i: usize = 0;
        while i < self.slots.len()
            invariant
                i <= self.slots@.len(),
                pairs_of(entries@) == decisions_spec_of(self@.take(i as int)),
                forall|k: int|
                    0 <= k < entries@.len() ==> 0 <= (#[trigger] pairs_of(entries@)[k]).0 < i
                        && (decision_of(self@[pairs_of(entries@)[k].0 as int]) matches Some(p)
                        && p.1 == pairs_of(entries@)[k].1),
                forall|j: int|
                    0 <= j < i && (#[trigger] self@[j]) is Resolved ==> exists|k: int|
                        0 <= k < entries@.len() && (#[trigger] pairs_of(entries@)[k]) == (
                        j as Slot,
                        decision_of(self@[j])->Some_0.1,
                        ),
                forall|k1: int, k2: int|
                    0 <= k1 < k2 < entries@.len() ==> (#[trigger] pairs_of(entries@)[k1]).0 < (
                    #[trigger] pairs_of(entries@)[k2]).0,
            decreases self.slots@.len() - i,
        {
            proof {
                assert(self@.take(i as int + 1).drop_last() =~= self@.take(i as int));
                assert(self@.take(i as int + 1).last() == self@[i as int]);
            }
            match &self.slots[i] {
                SlotState::Resolved { ballot: _, value } => {
                    let v = bytes_clone(value);
                    let ghost pv = bytes_view(v);
                    let ghost prev_e = pairs_of(entries@);
                    entries.push((i as u64, v));
                    proof {
                        let e = pairs_of(entries@);
                        let n = e.len() as int;
                        assert(e =~= prev_e.push((i as u64, pv)));
                        assert(e[n - 1] == (i as u64, pv));
                        assert(self@[i as int] is Resolved);
                        assert(decision_of(self@[i as int])->Some_0.1 == pv);
                        assert forall|j: int|
                            0 <= j < i + 1 && (#[trigger] self@[j]) is Resolved implies exists|
                                k: int,
                            |
                                0 <= k < e.len() && (#[trigger] e[k]) == (
                                j as Slot,
                                decision_of(self@[j])->Some_0.1,
                                ) by {
                            if j < i {
                                let k0 = choose|k0: int|
                                    0 <= k0 < prev_e.len() && (#[trigger] prev_e[k0]) == (
                                    j as Slot,
                                    decision_of(self@[j])->Some_0.1,
                                    );
                                assert(e[k0] == (j as Slot, decision_of(self@[j])->Some_0.1));
                            } else {
                                assert(e[n - 1] == (j as Slot, decision_of(self@[j])->Some_0.1));
                            }
                        }
                    }
                },
                _ => {},
            }
            i = i + 1;
        }
        proof {
            assert(self@.take(self@.len() as int) =~= self@);
        }
        DecisionSet { entries }
    }
}

/// The smallest index of a slot that is not resolved; the length when
/// every slot is.
pub open spec fn first_unresolved_spec(w: Seq<SlotV>) -> int
    decreases w.len(),
{
    if w.len() == 0 {
        0
    } else if !(w[0] is Resolved) {
        0
    } else {
        1 + first_unresolved_spec(w.drop_first())
    }
}

/// `first_unresolved_spec` names the least unresolved slot: everything
/// below it is resolved and it is not, unless every slot is.
pub proof fn lemma_first_unresolved_spec(w: Seq<SlotV>)
    ensures
        0 <= first_unresolved_spec(w) <= w.len(),
        forall|j: int| 0 <= j < first_unresolved_spec(w) ==> (#[trigger] w[j]) is Resolved,
        first_unresolved_spec(w) < w.len() ==> !(w[first_unresolved_spec(w)] is Resolved),
    decreases w.len(),
{
    if w.len() == 0 {
    } else if !(w[0] is Resolved) {
    } else {
        let t = w.drop_first();
        lemma_first_unresolved_spec(t);
        assert forall|j: int|
            0 <= j < first_unresolved_spec(w) implies (#[trigger] w[j]) is Resolved by {
            if j > 0 {
                assert(w[j] == t[j - 1]);
            }
        }
        if first_unresolved_spec(w) < w.len() {
            assert(w[first_unresolved_spec(w)] == t[first_unresolved_spec(t)]);
        }
    }
}

/// The decisions a window holds: each resolved slot with its value, in
/// slot order.
pub open spec fn decisions_spec_of(w: Seq<SlotV>) -> Seq<(Slot, Seq<u8>)>
    decreases w.len(),
{
    if w.len() == 0 {
        Seq::empty()
    } else {
        let rest = decisions_spec_of(w.drop_last());
        match decision_of(w.last()) {
            Some(d) => rest.push(((w.len() - 1) as Slot, d.1)),
            None => rest,
        }
    }
}

/// View of a decision list: each entry's slot with the bytes of its value.
pub open spec fn pairs_of(v: Seq<(Slot, Value)>) -> Seq<(Slot, Seq<u8>)> {
    v.map_values(|t: (Slot, Value)| (t.0, bytes_view(t.1)))
}

/// An ordered snapshot of resolved slots: slot numbers strictly increase.
/// Empty values mark no-op decisions, counted for advancement but not
/// executed.
pub struct DecisionSet {
    /// The decisions, sorted strictly by slot.
    pub entries: Vec<(Slot, Value)>,
}

impl View for DecisionSet {
    type V = Seq<(Slot, Seq<u8>)>;

    open spec fn view(&self) -> Seq<(Slot, Seq<u8>)> {
        pairs_of(self.entries@)
    }
}

impl DecisionSet {
    /// Slot numbers strictly increase along the entries.
    pub open spec fn sorted(&self) -> bool {
        forall|k1: int, k2: int|
            0 <= k1 < k2 < self@.len() ==> (#[trigger] self@[k1]).0 < (#[trigger] self@[k2]).0
    }

    /// Returns how many decisions the set holds.
    pub fn len(&self) -> (n: usize)
        ensures
            n == self@.len(),
    {
        self.entries.len()
    }

    /// Returns the `i`-th decision in slot order.
    pub fn get(&self, i: usize) -> (r: (Slot, Value))
        requires
            i < self@.len(),
        ensures
            r.0 == self@[i as int].0,
            bytes_view(r.1) == self@[i as int].1,
    {
        let (s, v) = &self.entries[i];
        (*s, bytes_clone(v))
    }

    /// Collects the decisions at or after `from`, in slot order.
    #[verifier::loop_isolation(false)]
    pub fn from_slot(&self, from: Slot) -> (r: Vec<(Slot, Value)>)
        ensures
            pairs_of(r@) == self@.filter(|p: (Slot, Seq<u8>)| p.0 >= from),
            forall|k: int|
                0 <= k < r@.len() ==> self@.contains(#[trigger] pairs_of(r@)[k]),
    {
        let mut r: Vec<(Slot, Value)> = Vec::new();
        let mut i: usize = 0;
        while i < self.entries.len()
            invariant
                i <= self.entries@.len(),
                pairs_of(r@) =~= pairs_of(self.entries@).take(i as int).filter(
                    |p: (Slot, Seq<u8>)| p.0 >= from,
                ),
                forall|k: int|
                    0 <= k < r@.len() ==> self@.contains(#[trigger] pairs_of(r@)[k]),
            decreases self.entries@.len() - i,
        {
            proof {
                assert(pairs_of(self.entries@).take(i as int + 1).drop_last() =~= pairs_of(
                    self.entries@,
                ).take(i as int));
                reveal_with_fuel(Seq::filter, 2);
            }
            let (s, v) = &self.entries[i];
            if *s >= from {
                let val = bytes_clone(v);
                let ghost rpre = r@;
                r.push((*s, val));
                proof {
                    assert(pairs_of(r@) =~= pairs_of(r@.drop_last()).push(
                        (r@.last().0, bytes_view(r@.last().1)),
                    ));
                    assert forall|k: int|
                        0 <= k < r@.len() implies self@.contains(#[trigger] pairs_of(r@)[k]) by {
                        if k < rpre.len() {
                            assert(pairs_of(r@)[k] == pairs_of(rpre)[k]);
                        } else {
                            assert(pairs_of(r@)[k] == pairs_of(self.entries@)[i as int]);
                            assert(self@.contains(self@[i as int]));
                        }
                    }
                }
            }
            i = i + 1;
        }
        proof {
            assert(pairs_of(self.entries@).take(self.entries@.len() as int) =~= pairs_of(
                self.entries@,
            ));
        }
        r
    }
}

} // verus!
