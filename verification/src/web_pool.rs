//! Which portals hold the pool's webviews this frame. A board full of pages
//! costs a bounded number of browsers, not one per page.
//!
//! Priority is input focus, then the greatest on-screen area, then the most
//! recent focus. Focus overrides the size gate: a human who double-clicks
//! into a page has said what they want. Sizes are measured by the caller in
//! screen pixels; this module sees what they decide and how they order.

use vstd::prelude::*;

verus! {

/// At most this many pages run live at once.
pub const LIVE_POOL: usize = 6;

/// One portal's inputs to the admission decision.
#[derive(Debug, Clone, Copy, PartialEq, Eq, Structural)]
pub struct Candidate {
    pub id: u64,
    /// The on-screen area as an order key: a larger area has a larger key.
    pub area_rank: u64,
    pub on_screen: bool,
    pub focused: bool,
    /// When the portal last had focus, as an order key (later is larger).
    pub last_focus: Option<u64>,
    /// A portal that cannot render (unbound, blocked, refused) never competes.
    pub renderable: bool,
    /// Held a pool slot last frame.
    pub was_live: bool,
    /// Tall enough on screen to be worth a webview.
    pub lod_eligible: bool,
    /// Painted at some height at all.
    pub has_height: bool,
}

/// Whether a candidate's size lets it hold a slot: focused, tall enough, or
/// already live and still painted (zooming alone never closes a running
/// page; the pool cap and leaving the screen still do).
pub open spec fn size_keeps_slot(c: Candidate) -> bool {
    c.focused || c.lod_eligible || (c.was_live && c.has_height)
}

/// Whether a candidate competes for a slot at all.
pub open spec fn competes(c: Candidate) -> bool {
    c.renderable && c.on_screen && size_keeps_slot(c)
}

/// The order key of a last-focus time: never focused sorts lowest.
pub open spec fn focus_key(t: Option<u64>) -> int {
    match t {
        Some(v) => v + 1,
        None => 0,
    }
}

/// Candidate `a` outranks `b`: focused over not, then larger area, then
/// later focus.
pub open spec fn outranks(a: Candidate, b: Candidate) -> bool {
    (a.focused && !b.focused) || (a.focused == b.focused && (a.area_rank > b.area_rank || (
    a.area_rank == b.area_rank && focus_key(a.last_focus) > focus_key(b.last_focus))))
}

/// Candidate `a` (at index `i`) comes before `b` (at `j`) in the ranking: it
/// outranks it, or ties and is listed first.
pub open spec fn ranks_before(cs: Seq<Candidate>, i: int, j: int) -> bool {
    outranks(cs[i], cs[j]) || (!outranks(cs[j], cs[i]) && i < j)
}

/// `order` lists every competing candidate once, best first, ties in
/// listed order.
pub open spec fn ranking(cs: Seq<Candidate>, order: Seq<usize>) -> bool {
    &&& forall|p: int| 0 <= p < order.len() ==> #[trigger] order[p] < cs.len() && competes(
        cs[order[p] as int],
    )
    &&& forall|i: int|
        0 <= i < cs.len() && competes(#[trigger] cs[i]) ==> exists|p: int|
            0 <= p < order.len() && order[p] as int == i
    &&& forall|p: int, q: int|
        0 <= p < q < order.len() ==> ranks_before(cs, #[trigger] order[p] as int, #[trigger] order[q] as int)
}

fn competes_exec(c: &Candidate) -> (r: bool)
    ensures
        r == competes(*c),
{
    c.renderable && c.on_screen && (c.focused || c.lod_eligible || (c.was_live && c.has_height))
}

fn outranks_exec(a: &Candidate, b: &Candidate) -> (r: bool)
    ensures
        r == outranks(*a, *b),
{
    if a.focused != b.focused {
        return a.focused;
    }
    if a.area_rank != b.area_rank {
        return a.area_rank > b.area_rank;
    }
    match (a.last_focus, b.last_focus) {
        (Some(x), Some(y)) => x > y,
        (Some(_), None) => true,
        _ => false,
    }
}

/// The competing candidates, best first.
pub fn admission_order(cs: &Vec<Candidate>) -> (order: Vec<usize>)
    ensures
        ranking(cs@, order@),
{
    let mut order: Vec<usize> = Vec::new();
    let mut i: usize = 0;
    while i < cs.len()
        invariant
            i <= cs@.len(),
            forall|p: int| 0 <= p < order@.len() ==> #[trigger] order@[p] < i && competes(
                cs@[order@[p] as int],
            ),
            forall|t: int|
                0 <= t < i && competes(#[trigger] cs@[t]) ==> exists|p: int|
                    0 <= p < order@.len() && order@[p] as int == t,
            forall|p: int, q: int|
                0 <= p < q < order@.len() ==> ranks_before(cs@, #[trigger] order@[p] as int, #[trigger] order@[q] as int),
        decreases cs.len() - i,
    {
        if competes_exec(&cs[i]) {
            let mut k: usize = 0;
            while k < order.len() && !outranks_exec(&cs[i], &cs[order[k]])
                invariant
                    k <= order@.len(),
                    i < cs@.len(),
                    forall|p: int| 0 <= p < order@.len() ==> #[trigger] order@[p] < i,
                    forall|p: int|
                        0 <= p < k ==> !outranks(cs@[i as int], cs@[#[trigger] order@[p] as int]),
                decreases order.len() - k,
            {
                k = k + 1;
            }
            let ghost before = order@;
            order.insert(k, i);
            assert(order@ == before.insert(k as int, i));
            assert forall|p: int, q: int| 0 <= p < q < order@.len() implies ranks_before(
                cs@,
                #[trigger] order@[p] as int,
                #[trigger] order@[q] as int,
            ) by {
                if q < k {
                    assert(order@[p] == before[p] && order@[q] == before[q]);
                } else if q == k {
                    assert(order@[p] == before[p]);
                    assert(before[p] < i);
                } else if p > k {
                    assert(order@[p] == before[p - 1] && order@[q] == before[q - 1]);
                } else if p == k {
                    assert(order@[q] == before[q - 1]);
                    assert(k < before.len());
                    assert(outranks(cs@[i as int], cs@[before[k as int] as int]));
                    if q - 1 > k {
                        assert(ranks_before(cs@, before[k as int] as int, before[q - 1] as int));
                    }
                } else {
                    assert(order@[p] == before[p] && order@[q] == before[q - 1]);
                }
            }
            assert forall|p: int| 0 <= p < order@.len() implies #[trigger] order@[p] < i + 1
                && competes(cs@[order@[p] as int]) by {
                if p < k {
                    assert(order@[p] == before[p]);
                } else if p > k {
                    assert(order@[p] == before[p - 1]);
                }
            }
            assert forall|t: int| 0 <= t < i + 1 && competes(#[trigger] cs@[t]) implies exists|p: int|
                0 <= p < order@.len() && order@[p] as int == t by {
                if t < i {
                    let p = choose|p: int| 0 <= p < before.len() && before[p] as int == t;
                    if p < k {
                        assert(order@[p] as int == t);
                    } else {
                        assert(order@[p + 1] as int == t);
                    }
                } else {
                    assert(order@[k as int] as int == t);
                }
            }
        }
        i = i + 1;
    }
    order
}

/// Chooses which portals hold the pool's webviews this frame: the first
/// `pool` of the ranking.
pub fn admit_to_pool(cs: &Vec<Candidate>, pool: usize) -> (ids: Vec<u64>)
    ensures
        exists|order: Seq<usize>|
            ranking(cs@, order) && ids@.len() == (if pool <= order.len() {
                pool as int
            } else {
                order.len() as int
            }) && forall|p: int| 0 <= p < ids@.len() ==> #[trigger] ids@[p] == cs@[order[p] as int].id,
{
    let order = admission_order(cs);
    let mut ids: Vec<u64> = Vec::new();
    let mut p: usize = 0;
    while p < order.len() && p < pool
        invariant
            p <= order@.len(),
            p <= pool,
            ranking(cs@, order@),
            ids@.len() == p,
            forall|t: int| 0 <= t < p ==> #[trigger] ids@[t] == cs@[order@[t] as int].id,
        decreases order.len() - p,
    {
        ids.push(cs[order[p]].id);
        p = p + 1;
    }
    assert(ranking(cs@, order@) && ids@.len() == (if pool <= order@.len() {
        pool as int
    } else {
        order@.len() as int
    }) && forall|t: int| 0 <= t < ids@.len() ==> #[trigger] ids@[t] == cs@[order@[t] as int].id);
    ids
}

/// The page being typed into is ranked first, however small it is on
/// screen: it takes a slot whenever the pool has one.
pub proof fn focus_keeps_its_slot(cs: Seq<Candidate>, order: Seq<usize>, f: int)
    requires
        ranking(cs, order),
        0 <= f < cs.len(),
        cs[f].focused,
        competes(cs[f]),
        forall|i: int| 0 <= i < cs.len() && i != f ==> !(#[trigger] cs[i]).focused,
    ensures
        order.len() > 0 && order[0] as int == f,
{
    let p = choose|p: int| 0 <= p < order.len() && order[p] as int == f;
    if p > 0 {
        assert(ranks_before(cs, order[0] as int, order[p] as int));
        assert(order[0] < cs.len());
        assert(competes(cs[order[0] as int]));
    }
}

/// In the ranking, a focused page comes before every unfocused one; among
/// pages alike in focus, a larger one on screen comes first, and between
/// pages of the same size the one focused more recently comes first.
pub proof fn bigger_and_focused_pages_rank_first(cs: Seq<Candidate>, order: Seq<usize>, p: int, q: int)
    requires
        ranking(cs, order),
        0 <= p < order.len(),
        0 <= q < order.len(),
    ensures
        cs[order[p] as int].focused && !cs[order[q] as int].focused ==> p < q,
        cs[order[p] as int].focused == cs[order[q] as int].focused && cs[order[p] as int].area_rank
            > cs[order[q] as int].area_rank ==> p < q,
        cs[order[p] as int].focused == cs[order[q] as int].focused && cs[order[p] as int].area_rank
            == cs[order[q] as int].area_rank && focus_key(cs[order[p] as int].last_focus) > focus_key(
            cs[order[q] as int].last_focus,
        ) ==> p < q,
{
    if q < p {
        assert(ranks_before(cs, order[q] as int, order[p] as int));
    }
}

/// A portal that cannot render, or is off screen, never takes a slot; one
/// too short to be worth a webview takes none unless it is focused or was
/// already running; a focused portal on screen that can render always
/// competes.
pub proof fn who_competes_for_a_slot(c: Candidate)
    ensures
        !c.renderable || !c.on_screen ==> !competes(c),
        !c.focused && !c.lod_eligible && !(c.was_live && c.has_height) ==> !competes(c),
        c.renderable && c.on_screen && c.focused ==> competes(c),
        c.renderable && c.on_screen && c.lod_eligible ==> competes(c),
{
}

/// Zooming alone never closes a running page: a page that held a slot and is
/// still painted keeps competing whatever its size.
pub proof fn a_running_page_survives_zoom(c: Candidate)
    requires
        c.renderable,
        c.on_screen,
        c.was_live,
        c.has_height,
    ensures
        competes(c),
{
}

} // verus!
