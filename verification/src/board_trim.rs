//! Trim mode: pick the cutters, then click the pieces that should go. This
//! module holds the session and its steps; picking geometry stays with the
//! canvas, which reports the node ids it hit.

use vstd::prelude::*;

verus! {

/// Which half of a trim session is running.
#[derive(Debug, Clone, Copy, PartialEq, Eq, Structural)]
pub enum TrimPhase {
    PickCutters,
    TrimParts,
}

/// What the pointer would act on if clicked now.
#[derive(Debug, Clone, Copy, PartialEq, Eq, Structural)]
pub enum TrimHover {
    Cutter(u64),
    OpenSpan { target: u64, span: usize },
    ClosedRegion { target: u64 },
    Extend { target: u64, from_start: bool },
}

/// One armed trim: its phase, the chosen cutters (node ids), and the hover.
#[derive(Debug, Clone)]
pub struct TrimSession {
    pub phase: TrimPhase,
    pub cutters: Vec<u64>,
    pub hover: Option<TrimHover>,
}

/// What a key press did to a trim session.
#[derive(Debug, Clone, Copy, PartialEq, Eq, Structural)]
pub enum TrimStep {
    /// The session took the key and stays armed.
    Handled,
    /// The session is over: drop it and return to the Select tool.
    Disarm,
}

/// Ids in ascending order.
pub open spec fn ascending(s: Seq<u64>) -> bool {
    forall|i: int, j: int| 0 <= i <= j < s.len() ==> s[i] <= s[j]
}

/// No id twice.
pub open spec fn no_repeats(s: Seq<u64>) -> bool {
    forall|i: int, j: int| 0 <= i < j < s.len() ==> s[i] != s[j]
}

/// `ids` in ascending order, each kept as often as it occurs.
pub fn sort_ids(ids: &Vec<u64>) -> (r: Vec<u64>)
    ensures
        ascending(r@),
        r@.to_multiset() == ids@.to_multiset(),
{
    broadcast use vstd::seq_lib::group_to_multiset_ensures;

    let mut r: Vec<u64> = Vec::new();
    let mut i: usize = 0;
    while i < ids.len()
        invariant
            i <= ids@.len(),
            ascending(r@),
            r@.to_multiset() == ids@.take(i as int).to_multiset(),
        decreases ids.len() - i,
    {
        let x = ids[i];
        let mut k: usize = 0;
        while k < r.len() && r[k] <= x
            invariant
                k <= r@.len(),
                forall|j: int| 0 <= j < k ==> r@[j] <= x,
            decreases r.len() - k,
        {
            k = k + 1;
        }
        let ghost before = r@;
        proof {
            vstd::seq_lib::to_multiset_insert(before, k as int, x);
        }
        r.insert(k, x);
        assert(r@ == before.insert(k as int, x));
        assert(ids@.take(i as int + 1) =~= ids@.take(i as int).push(x));
        proof {
            vstd::seq_lib::to_multiset_build(ids@.take(i as int), x);
        }
        assert(r@.to_multiset() == ids@.take(i as int + 1).to_multiset());
        assert forall|a: int, b: int| 0 <= a <= b < r@.len() implies r@[a] <= r@[b] by {
            if b < k {
                assert(r@[a] == before[a] && r@[b] == before[b]);
            } else if b == k {
                if a < k {
                    assert(r@[a] == before[a]);
                }
            } else if a > k {
                assert(r@[a] == before[a - 1] && r@[b] == before[b - 1]);
            } else if a == k {
                assert(k < before.len());
                assert(before[k as int] > x);
                assert(r@[b] == before[b - 1]);
                assert(before[k as int] <= before[b - 1]);
            } else {
                assert(r@[a] == before[a] && r@[b] == before[b - 1]);
            }
        }
        i = i + 1;
    }
    assert(ids@.take(ids@.len() as int) =~= ids@);
    r
}

impl TrimSession {
    /// The session Trim starts with when the selection holds `cutters`: the
    /// cutters in id order, straight to trimming when there are any.
    pub fn armed(cutters: &Vec<u64>) -> (s: Self)
        ensures
            ascending(s.cutters@),
            s.cutters@.to_multiset() == cutters@.to_multiset(),
            s.phase == (if cutters@.len() == 0 {
                TrimPhase::PickCutters
            } else {
                TrimPhase::TrimParts
            }),
            s.hover is None,
    {
        broadcast use vstd::seq_lib::group_to_multiset_ensures;

        let sorted = sort_ids(cutters);
        assert(sorted@.len() == cutters@.len()) by {
            assert(sorted@.len() == sorted@.to_multiset().len());
            assert(cutters@.len() == cutters@.to_multiset().len());
        }
        let phase = if sorted.len() == 0 {
            TrimPhase::PickCutters
        } else {
            TrimPhase::TrimParts
        };
        TrimSession { phase, cutters: sorted, hover: None }
    }

    /// Enter: with cutters picked, go on to trimming; with none, stay;
    /// while trimming, finish.
    pub fn enter(&mut self) -> (step: TrimStep)
        ensures
            old(self).phase == TrimPhase::TrimParts ==> (step == TrimStep::Disarm && *final(self)
                == *old(self)),
            (old(self).phase == TrimPhase::PickCutters && old(self).cutters@.len() > 0) ==> (step
                == TrimStep::Handled && final(self).phase == TrimPhase::TrimParts
                && final(self).hover is None && final(self).cutters@ == old(self).cutters@),
            (old(self).phase == TrimPhase::PickCutters && old(self).cutters@.len() == 0) ==> (step
                == TrimStep::Handled && *final(self) == *old(self)),
    {
        match self.phase {
            TrimPhase::PickCutters => {
                if self.cutters.len() > 0 {
                    self.phase = TrimPhase::TrimParts;
                    self.hover = None;
                }
                TrimStep::Handled
            },
            TrimPhase::TrimParts => TrimStep::Disarm,
        }
    }

    /// Escape: from trimming back to picking cutters; from picking, finish.
    pub fn cancel_step(&mut self) -> (step: TrimStep)
        ensures
            old(self).phase == TrimPhase::TrimParts ==> (step == TrimStep::Handled
                && final(self).phase == TrimPhase::PickCutters && final(self).hover is None
                && final(self).cutters@ == old(self).cutters@),
            old(self).phase == TrimPhase::PickCutters ==> (step == TrimStep::Disarm && *final(self)
                == *old(self)),
    {
        if self.phase == TrimPhase::TrimParts {
            self.phase = TrimPhase::PickCutters;
            self.hover = None;
            return TrimStep::Handled;
        }
        TrimStep::Disarm
    }

    /// Whether the trim preview is live: the session is trimming.
    pub fn live_draft(&self) -> (r: bool)
        ensures
            r == (self.phase == TrimPhase::TrimParts),
    {
        self.phase == TrimPhase::TrimParts
    }

    /// Add a node the pointer picked as a cutter, once.
    pub fn add_cutter(&mut self, id: u64)
        ensures
            final(self).phase == old(self).phase,
            final(self).hover == old(self).hover,
            old(self).cutters@.contains(id) ==> final(self).cutters@ == old(self).cutters@,
            !old(self).cutters@.contains(id) ==> final(self).cutters@ == old(self).cutters@.push(id),
    {
        let mut k: usize = 0;
        while k < self.cutters.len()
            invariant
                k <= self.cutters@.len(),
                forall|j: int| 0 <= j < k ==> self.cutters@[j] != id,
            decreases self.cutters.len() - k,
        {
            if self.cutters[k] == id {
                assert(self.cutters@[k as int] == id);
                return;
            }
            k = k + 1;
        }
        self.cutters.push(id);
    }

    /// Set what the pointer hovers.
    pub fn set_hover(&mut self, hover: Option<TrimHover>)
        ensures
            final(self).phase == old(self).phase,
            final(self).cutters@ == old(self).cutters@,
            final(self).hover == hover,
    {
        self.hover = hover;
    }
}

impl Default for TrimSession {
    fn default() -> (s: Self)
        ensures
            s.phase == TrimPhase::PickCutters,
            s.cutters@.len() == 0,
            s.hover is None,
    {
        TrimSession { phase: TrimPhase::PickCutters, cutters: Vec::new(), hover: None }
    }
}

/// Picking the same node twice never lists it twice: adding a cutter keeps
/// the cutter list free of repeats.
pub proof fn adding_a_cutter_keeps_cutters_distinct(cutters: Seq<u64>, id: u64)
    requires
        no_repeats(cutters),
    ensures
        no_repeats(if cutters.contains(id) {
            cutters
        } else {
            cutters.push(id)
        }),
{
    if !cutters.contains(id) {
        let s = cutters.push(id);
        assert forall|i: int, j: int| 0 <= i < j < s.len() implies s[i] != s[j] by {
            if j == cutters.len() {
                assert(s[i] == cutters[i]);
            } else {
                assert(s[i] == cutters[i] && s[j] == cutters[j]);
            }
        }
    }
}

} // verus!
