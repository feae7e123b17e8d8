//! One frame of the web portal runtime, as decisions on ids, keys and flags:
//! which views go and which are rebuilt, which portals go live or are
//! evicted after admission, and how the frame's upload budget is spent.
//!
//! The host (admitting, evicting, taking frames), the clock and painting
//! are the application's; it performs each step and hands back what
//! happened.

use vstd::prelude::*;
use crate::board_video::drop_id;
use crate::text::{chars_of, starts_with_at};
use crate::web_pool::LIVE_POOL;

verus! {

/// A portal on the board this frame: its node id, the key of its derived
/// state (locator and layout), and its locator.
#[derive(Debug, Clone)]
pub struct PortalView {
    pub id: u64,
    pub key: String,
    pub locator: String,
}

/// What the frame does to the views before admission.
#[derive(Debug, Clone)]
pub struct ViewPlan {
    /// Views of portals no longer on the board: evict and drop them.
    pub dropped: Vec<u64>,
    /// Portals whose view is new or whose key changed: rebuild the view, and
    /// keep the old poster and resume URL (`true`) only when the old view was
    /// of the same locator.
    pub rebuilt: Vec<(u64, bool)>,
    /// Give up page focus.
    pub blur: bool,
}

/// Index of the first view of node `id` at or after `i`, if any.
pub open spec fn find_view(views: Seq<(u64, String)>, id: u64, i: int) -> Option<int>
    decreases views.len() - i,
{
    if i < 0 || i >= views.len() {
        None
    } else if views[i].0 == id {
        Some(i)
    } else {
        find_view(views, id, i + 1)
    }
}

/// Whether some portal has node id `id`.
pub open spec fn on_board(portals: Seq<PortalView>, id: u64) -> bool {
    exists|k: int| 0 <= k < portals.len() && (#[trigger] portals[k]).id == id
}

/// The ids of the views whose portal left the board, in the views' order.
pub open spec fn dropped_views(views: Seq<(u64, String)>, portals: Seq<PortalView>) -> Seq<u64>
    decreases views.len(),
{
    if views.len() == 0 {
        Seq::empty()
    } else {
        let r = dropped_views(views.drop_last(), portals);
        if on_board(portals, views.last().0) {
            r
        } else {
            r.push(views.last().0)
        }
    }
}

/// Whether a view key belongs to `locator`: it starts with the locator and
/// `'|'`.
pub open spec fn key_of_locator(key: Seq<char>, locator: Seq<char>) -> bool {
    locator.len() + 1 <= key.len() && key.subrange(0, locator.len() as int) == locator
        && key[locator.len() as int] == '|'
}

/// The rebuild, if any, portal `p` needs: none when its view exists with the
/// same key; else a rebuild that keeps the old poster when the old view's
/// key is of the same locator.
pub open spec fn rebuild_of(views: Seq<(u64, String)>, p: PortalView) -> Option<(u64, bool)> {
    match find_view(views, p.id, 0) {
        Some(i) => if views[i].1@ == p.key@ {
            None
        } else {
            Some((p.id, key_of_locator(views[i].1@, p.locator@)))
        },
        None => Some((p.id, false)),
    }
}

/// The rebuilds of the portals, in board order.
pub open spec fn rebuilds(views: Seq<(u64, String)>, portals: Seq<PortalView>) -> Seq<(u64, bool)>
    decreases portals.len(),
{
    if portals.len() == 0 {
        Seq::empty()
    } else {
        let r = rebuilds(views, portals.drop_last());
        match rebuild_of(views, portals.last()) {
            Some(x) => r.push(x),
            None => r,
        }
    }
}

/// Whether the frame gives up page focus: with no portal left, whenever any
/// view was held; else when the focused portal left the board.
pub open spec fn blur_spec(
    views: Seq<(u64, String)>,
    portals: Seq<PortalView>,
    focused: Option<u64>,
) -> bool {
    if portals.len() == 0 {
        views.len() > 0
    } else {
        focused matches Some(f) && !on_board(portals, f)
    }
}

fn find_view_exec(views: &Vec<(u64, String)>, id: u64) -> (r: Option<usize>)
    ensures
        match r {
            Some(i) => i < views@.len() && find_view(views@, id, 0) == Some(i as int),
            None => find_view(views@, id, 0) is None,
        },
{
    let mut i: usize = 0;
    while i < views.len()
        invariant
            i <= views@.len(),
            find_view(views@, id, 0) == find_view(views@, id, i as int),
        decreases views.len() - i,
    {
        if views[i].0 == id {
            return Some(i);
        }
        i = i + 1;
    }
    None
}

fn on_board_exec(portals: &Vec<PortalView>, id: u64) -> (r: bool)
    ensures
        r == on_board(portals@, id),
{
    let mut k: usize = 0;
    while k < portals.len()
        invariant
            k <= portals@.len(),
            forall|j: int| 0 <= j < k ==> (#[trigger] portals@[j]).id != id,
        decreases portals.len() - k,
    {
        if portals[k].id == id {
            assert(portals@[k as int].id == id);
            return true;
        }
        k = k + 1;
    }
    false
}

fn key_of_locator_exec(key: &String, locator: &String) -> (r: bool)
    ensures
        r == key_of_locator(key@, locator@),
{
    let k = chars_of(key.as_str());
    let l = chars_of(locator.as_str());
    if l.len() >= k.len() {
        return false;
    }
    let head = starts_with_at(&k, 0, l.len(), &l);
    assert(k@.subrange(0, l@.len() as int).subrange(0, l@.len() as int) =~= k@.subrange(
        0,
        l@.len() as int,
    ));
    head && k[l.len()] == '|'
}

/// What the frame does to the views before admission; see `ViewPlan`.
pub fn plan_views(views: &Vec<(u64, String)>, portals: &Vec<PortalView>, focused: Option<u64>) -> (r:
    ViewPlan)
    ensures
        r.dropped@ == dropped_views(views@, portals@),
        r.rebuilt@ == rebuilds(views@, portals@),
        r.blur == blur_spec(views@, portals@, focused),
{
    let mut dropped: Vec<u64> = Vec::new();
    let mut i: usize = 0;
    while i < views.len()
        invariant
            i <= views@.len(),
            dropped@ == dropped_views(views@.take(i as int), portals@),
        decreases views.len() - i,
    {
        assert(views@.take(i as int + 1).drop_last() =~= views@.take(i as int));
        if !on_board_exec(portals, views[i].0) {
            dropped.push(views[i].0);
        }
        i = i + 1;
    }
    assert(views@.take(views@.len() as int) =~= views@);
    let mut rebuilt: Vec<(u64, bool)> = Vec::new();
    let mut k: usize = 0;
    while k < portals.len()
        invariant
            k <= portals@.len(),
            rebuilt@ == rebuilds(views@, portals@.take(k as int)),
        decreases portals.len() - k,
    {
        assert(portals@.take(k as int + 1).drop_last() =~= portals@.take(k as int));
        let p = &portals[k];
        match find_view_exec(views, p.id) {
            Some(v) => {
                if views[v].1 != p.key {
                    let keep = key_of_locator_exec(&views[v].1, &p.locator);
                    rebuilt.push((p.id, keep));
                }
            },
            None => {
                rebuilt.push((p.id, false));
            },
        }
        k = k + 1;
    }
    assert(portals@.take(portals@.len() as int) =~= portals@);
    let blur = if portals.len() == 0 {
        views.len() > 0
    } else {
        match focused {
            Some(f) => !on_board_exec(portals, f),
            None => false,
        }
    };
    ViewPlan { dropped, rebuilt, blur }
}

/// What admission means for one portal this frame.
#[derive(Debug, Clone, Copy, PartialEq, Eq, Structural)]
pub enum LiveAction {
    /// Admitted: (re)admit it to the host and mark it live.
    Admit,
    /// Not admitted but live last frame: evict it, keeping its last frame.
    Evict,
    /// Neither: nothing to do.
    Keep,
}

/// The action for a portal given whether it was admitted and was live.
pub open spec fn live_action(admitted: bool, was_live: bool) -> LiveAction {
    if admitted {
        LiveAction::Admit
    } else if was_live {
        LiveAction::Evict
    } else {
        LiveAction::Keep
    }
}

fn contains_id(v: &Vec<u64>, id: u64) -> (r: bool)
    ensures
        r == v@.contains(id),
{
    let mut i: usize = 0;
    while i < v.len()
        invariant
            i <= v@.len(),
            forall|j: int| 0 <= j < i ==> v@[j] != id,
        decreases v.len() - i,
    {
        if v[i] == id {
            assert(v@[i as int] == id);
            return true;
        }
        i = i + 1;
    }
    false
}

/// For each portal, in board order, what admission asks of it.
pub fn plan_liveness(portal_ids: &Vec<u64>, admitted: &Vec<u64>, was_live: &Vec<bool>) -> (r: Vec<
    LiveAction,
>)
    requires
        was_live@.len() == portal_ids@.len(),
    ensures
        r@.len() == portal_ids@.len(),
        forall|k: int|
            0 <= k < r@.len() ==> #[trigger] r@[k] == live_action(
                admitted@.contains(portal_ids@[k]),
                was_live@[k],
            ),
{
    let mut r: Vec<LiveAction> = Vec::new();
    let mut k: usize = 0;
    while k < portal_ids.len()
        invariant
            k <= portal_ids@.len(),
            was_live@.len() == portal_ids@.len(),
            r@.len() == k,
            forall|j: int|
                0 <= j < k ==> #[trigger] r@[j] == live_action(
                    admitted@.contains(portal_ids@[j]),
                    was_live@[j],
                ),
        decreases portal_ids.len() - k,
    {
        let a = if contains_id(admitted, portal_ids[k]) {
            LiveAction::Admit
        } else if was_live[k] {
            LiveAction::Evict
        } else {
            LiveAction::Keep
        };
        r.push(a);
        k = k + 1;
    }
    r
}

/// `pending` with each id of `more` that it does not hold yet appended, in
/// order.
pub open spec fn append_new(pending: Seq<u64>, more: Seq<u64>) -> Seq<u64>
    decreases more.len(),
{
    if more.len() == 0 {
        pending
    } else {
        let r = append_new(pending, more.drop_last());
        if r.contains(more.last()) {
            r
        } else {
            r.push(more.last())
        }
    }
}

/// The order in which portals may upload a frame: last frame's backlog
/// first, then the newly admitted not already queued, with the focused
/// portal moved to the front when it is queued.
pub open spec fn upload_queue_spec(backlog: Seq<u64>, admitted: Seq<u64>, focused: Option<u64>) -> Seq<
    u64,
> {
    let q = append_new(backlog, admitted);
    match focused {
        Some(f) => if q.contains(f) {
            seq![f] + drop_id(q, f)
        } else {
            q
        },
        None => q,
    }
}

proof fn append_new_facts(pending: Seq<u64>, more: Seq<u64>)
    ensures
        forall|x: u64| #[trigger] append_new(pending, more).contains(x) <==> pending.contains(x)
            || more.contains(x),
        append_new(pending, more).len() >= pending.len(),
        append_new(pending, more).take(pending.len() as int) == pending,
        crate::board_video::distinct(pending) ==> crate::board_video::distinct(
            append_new(pending, more),
        ),
    decreases more.len(),
{
    if more.len() > 0 {
        let t = more.drop_last();
        let y = more.last();
        append_new_facts(pending, t);
        let r = append_new(pending, t);
        let a = append_new(pending, more);
        assert forall|x: u64| #[trigger] a.contains(x) <==> pending.contains(x) || more.contains(x) by {
            if more.contains(x) && !pending.contains(x) {
                let k = choose|k: int| 0 <= k < more.len() && more[k] == x;
                if k < t.len() {
                    assert(t[k] == x);
                    assert(r.contains(x));
                    let m = choose|m: int| 0 <= m < r.len() && r[m] == x;
                    if !r.contains(y) {
                        assert(a[m] == x);
                    }
                } else if !r.contains(y) {
                    assert(a[r.len() as int] == x);
                }
            }
            if a.contains(x) {
                let m = choose|m: int| 0 <= m < a.len() && a[m] == x;
                if m < r.len() {
                    assert(r[m] == x);
                    assert(r.contains(x));
                    if !pending.contains(x) {
                        let k = choose|k: int| 0 <= k < t.len() && t[k] == x;
                        assert(more[k] == x);
                    }
                } else {
                    assert(more[more.len() - 1] == x);
                }
            }
            if pending.contains(x) {
                assert(r.contains(x));
                let m = choose|m: int| 0 <= m < r.len() && r[m] == x;
                if !r.contains(y) {
                    assert(a[m] == x);
                }
            }
        }
        assert(a.take(pending.len() as int) =~= r.take(pending.len() as int));
    }
}

/// The upload queue holds each carried and each newly admitted portal, and
/// nothing else; a focused portal in it goes first; a backlog without
/// repeats gives a queue without repeats.
pub proof fn the_queue_holds_each_pending_portal_once(
    backlog: Seq<u64>,
    admitted: Seq<u64>,
    focused: Option<u64>,
)
    ensures
        forall|x: u64| #[trigger] upload_queue_spec(backlog, admitted, focused).contains(x) <==> (
        backlog.contains(x) || admitted.contains(x)),
        focused is Some && (backlog.contains(focused->0) || admitted.contains(focused->0))
            ==> upload_queue_spec(backlog, admitted, focused)[0] == focused->0,
        crate::board_video::distinct(backlog) ==> crate::board_video::distinct(
            upload_queue_spec(backlog, admitted, focused),
        ),
{
    append_new_facts(backlog, admitted);
    let q = append_new(backlog, admitted);
    if focused is Some {
        let f = focused->0;
        if q.contains(f) {
            crate::board_video::touch_keeps_one_entry_per_strip(q, f);
            let d = drop_id(q, f);
            let u = seq![f] + d;
            assert forall|x: u64| #[trigger] u.contains(x) <==> q.contains(x) by {
                if x == f {
                    assert(u[0] == f);
                } else {
                    if u.contains(x) {
                        let m = choose|m: int| 0 <= m < u.len() && u[m] == x;
                        assert(d[m - 1] == x);
                    }
                    if d.contains(x) {
                        let m = choose|m: int| 0 <= m < d.len() && d[m] == x;
                        assert(u[m + 1] == x);
                    }
                }
            }
            if crate::board_video::distinct(backlog) {
                assert forall|i: int, j: int| 0 <= i < j < u.len() implies u[i] != u[j] by {
                    if i == 0 {
                        assert(u[j] == d[j - 1]);
                        assert(d.contains(d[j - 1]));
                    } else {
                        assert(u[i] == d[i - 1] && u[j] == d[j - 1]);
                    }
                }
            }
        }
    }
}

/// See `upload_queue_spec`.
pub fn upload_queue(backlog: Vec<u64>, admitted: &Vec<u64>, focused: Option<u64>) -> (q: Vec<u64>)
    ensures
        q@ == upload_queue_spec(backlog@, admitted@, focused),
{
    let ghost b = backlog@;
    let mut pending = backlog;
    let mut i: usize = 0;
    while i < admitted.len()
        invariant
            i <= admitted@.len(),
            pending@ == append_new(b, admitted@.take(i as int)),
        decreases admitted.len() - i,
    {
        assert(admitted@.take(i as int + 1).drop_last() =~= admitted@.take(i as int));
        if !contains_id(&pending, admitted[i]) {
            pending.push(admitted[i]);
        }
        i = i + 1;
    }
    assert(admitted@.take(admitted@.len() as int) =~= admitted@);
    match focused {
        Some(f) => {
            if contains_id(&pending, f) {
                let mut q: Vec<u64> = Vec::new();
                q.push(f);
                let ghost head = q@;
                let mut k: usize = 0;
                while k < pending.len()
                    invariant
                        k <= pending@.len(),
                        head == seq![f],
                        q@ == head + drop_id(pending@.take(k as int), f),
                    decreases pending.len() - k,
                {
                    assert(pending@.take(k as int + 1).drop_last() =~= pending@.take(k as int));
                    if pending[k] != f {
                        q.push(pending[k]);
                    }
                    k = k + 1;
                }
                assert(pending@.take(pending@.len() as int) =~= pending@);
                q
            } else {
                pending
            }
        },
        None => pending,
    }
}

/// The portals carried to the next frame, at most `cap` of them: the newest
/// (the last listed) are kept.
pub fn cap_backlog(carried: Vec<u64>, cap: usize) -> (b: Vec<u64>)
    ensures
        b@ == (if carried@.len() > cap {
            carried@.skip(carried@.len() - cap)
        } else {
            carried@
        }),
{
    if carried.len() <= cap {
        return carried;
    }
    let drop = carried.len() - cap;
    let mut b: Vec<u64> = Vec::new();
    let mut i = drop;
    while i < carried.len()
        invariant
            drop <= i <= carried@.len(),
            drop == carried@.len() - cap,
            b@ == carried@.subrange(drop as int, i as int),
        decreases carried.len() - i,
    {
        b.push(carried[i]);
        assert(carried@.subrange(drop as int, i as int).push(carried@[i as int])
            =~= carried@.subrange(drop as int, i + 1));
        i = i + 1;
    }
    assert(carried@.skip(drop as int) =~= carried@.subrange(drop as int, carried@.len() as int));
    b
}

/// What the frame knows of a queued portal when its turn comes. Times are
/// nanoseconds.
#[derive(Debug, Clone, Copy, PartialEq, Eq, Structural)]
pub struct UploadFacts {
    /// The portal still has a view.
    pub has_view: bool,
    pub live: bool,
    /// Painted shorter than the strip height.
    pub small: bool,
    pub focused: bool,
    /// Focused and worked on a moment ago: frames are taken at once.
    pub interactive: bool,
    /// Time since a frame was last asked of it, if ever.
    pub since_probe: Option<u64>,
    /// How often it may be asked for a frame.
    pub interval: u64,
}

/// What the upload round does with a queued portal.
#[derive(Debug, Clone, Copy, PartialEq, Eq, Structural)]
pub enum UploadStep {
    /// Carry it to the next frame; it is due again in `due` nanoseconds.
    Carry { due: u64 },
    /// Nothing to take from it.
    Skip,
    /// Ask the host for its frame now.
    Probe,
}

/// The step for a portal when `uploads` of `budget` uploads are spent.
pub open spec fn upload_step_spec(uploads: nat, budget: nat, f: UploadFacts) -> UploadStep {
    if uploads >= budget {
        UploadStep::Carry { due: 0 }
    } else if !f.has_view || !f.live || (f.small && !f.focused) {
        UploadStep::Skip
    } else if !f.interactive && f.since_probe is Some && f.since_probe->0 < f.interval {
        UploadStep::Carry { due: (f.interval - f.since_probe->0) as u64 }
    } else {
        UploadStep::Probe
    }
}

/// The same portal's facts `d` nanoseconds after its last probe was
/// measured.
pub open spec fn later(f: UploadFacts, d: u64) -> UploadFacts {
    UploadFacts { since_probe: Some((f.since_probe->0 + d) as u64), ..f }
}

/// How a queued portal is paced within a frame:
/// - once the budget is spent every portal is carried, due at once;
/// - within it, a portal with no view, not live, or painted small and not
///   focused gives nothing;
/// - a live portal with a view is probed when it was never probed, is being
///   worked on, or its interval has run out since its last probe;
/// - otherwise it is carried, due when the rest of its interval has run, so
///   the same portal asked again that much later is probed.
pub proof fn a_portal_is_probed_once_its_interval_runs_out(
    uploads: nat,
    budget: nat,
    f: UploadFacts,
)
    ensures
        uploads >= budget ==> upload_step_spec(uploads, budget, f) == (UploadStep::Carry { due: 0 }),
        uploads < budget && (!f.has_view || !f.live || (f.small && !f.focused)) ==> upload_step_spec(
            uploads,
            budget,
            f,
        ) == UploadStep::Skip,
        uploads < budget && f.has_view && f.live && !(f.small && !f.focused) && (f.interactive
            || f.since_probe is None || f.since_probe->0 >= f.interval) ==> upload_step_spec(
            uploads,
            budget,
            f,
        ) == UploadStep::Probe,
        uploads < budget && f.has_view && f.live && !(f.small && !f.focused) && !f.interactive
            && f.since_probe is Some && f.since_probe->0 < f.interval ==> ({
            let d = (f.interval - f.since_probe->0) as u64;
            &&& upload_step_spec(uploads, budget, f) == (UploadStep::Carry { due: d })
            &&& 0 < d <= f.interval
            &&& upload_step_spec(uploads, budget, later(f, d)) == UploadStep::Probe
        }),
{
}

/// The earlier of a pending due time and `d`.
pub open spec fn earliest(due: Option<u64>, d: u64) -> u64 {
    match due {
        Some(x) => if x <= d {
            x
        } else {
            d
        },
        None => d,
    }
}

/// One frame's spending of the upload budget: how many frames were uploaded,
/// which portals are carried to the next frame, and when the earliest of
/// them is due.
pub struct UploadRound {
    budget: usize,
    uploads: usize,
    carried: Vec<u64>,
    next_due: Option<u64>,
}

impl UploadRound {
    pub closed spec fn budget_of(&self) -> nat {
        self.budget as nat
    }

    pub closed spec fn uploads_done(&self) -> nat {
        self.uploads as nat
    }

    pub closed spec fn carried_ids(&self) -> Seq<u64> {
        self.carried@
    }

    pub closed spec fn due(&self) -> Option<u64> {
        self.next_due
    }

    /// A round with `budget` uploads to spend.
    pub fn new(budget: usize) -> (r: Self)
        ensures
            r.budget_of() == budget,
            r.uploads_done() == 0,
            r.carried_ids() == Seq::<u64>::empty(),
            r.due() is None,
    {
        UploadRound { budget, uploads: 0, carried: Vec::new(), next_due: None }
    }

    /// The turn of portal `id`: carried, skipped, or to be probed. A carried
    /// portal joins the carried list and brings the due time forward.
    pub fn step(&mut self, id: u64, f: UploadFacts) -> (s: UploadStep)
        ensures
            s == upload_step_spec(old(self).uploads_done(), old(self).budget_of(), f),
            final(self).budget_of() == old(self).budget_of(),
            final(self).uploads_done() == old(self).uploads_done(),
            s matches UploadStep::Carry { due } ==> final(self).carried_ids() == old(self).carried_ids().push(id) && final(self).due() == Some(earliest(old(self).due(), due)),
            !(s is Carry) ==> final(self).carried_ids() == old(self).carried_ids() && final(self).due() == old(self).due(),
    {
        let s = if self.uploads >= self.budget {
            UploadStep::Carry { due: 0 }
        } else if !f.has_view || !f.live || (f.small && !f.focused) {
            UploadStep::Skip
        } else if !f.interactive && f.since_probe.is_some() && f.since_probe.unwrap() < f.interval {
            UploadStep::Carry { due: f.interval - f.since_probe.unwrap() }
        } else {
            UploadStep::Probe
        };
        if let UploadStep::Carry { due } = s {
            self.carried.push(id);
            self.next_due = Some(
                match self.next_due {
                    Some(x) => if x <= due {
                        x
                    } else {
                        due
                    },
                    None => due,
                },
            );
        }
        s
    }

    /// The host's answer to a probe of `id`: a frame was uploaded (it counts
    /// against the budget), or, with none and the portal still live, it is
    /// carried and due again in `interval`.
    pub fn probed(&mut self, id: u64, uploaded: bool, still_live: bool, interval: u64)
        requires
            uploaded ==> old(self).uploads_done() < old(self).budget_of(),
        ensures
            final(self).budget_of() == old(self).budget_of(),
            final(self).uploads_done() == old(self).uploads_done() + (if uploaded {
                1int
            } else {
                0int
            }),
            (!uploaded && still_live) ==> (final(self).carried_ids() == old(self).carried_ids().push(id) && final(self).due() == Some(
                earliest(old(self).due(), interval),
            )),
            !(!uploaded && still_live) ==> (final(self).carried_ids() == old(self).carried_ids()
                && final(self).due() == old(self).due()),
    {
        if uploaded {
            self.uploads = self.uploads + 1;
        } else if still_live {
            self.carried.push(id);
            self.next_due = Some(
                match self.next_due {
                    Some(x) => if x <= interval {
                        x
                    } else {
                        interval
                    },
                    None => interval,
                },
            );
        }
    }

    /// Close the round: the backlog for the next frame (the newest `cap`
    /// carried) and when the earliest of them is due.
    pub fn finish(self, cap: usize) -> (r: (Vec<u64>, Option<u64>))
        ensures
            r.0@ == (if self.carried_ids().len() > cap {
                self.carried_ids().skip(self.carried_ids().len() - cap)
            } else {
                self.carried_ids()
            }),
            r.1 == self.due(),
    {
        let due = self.next_due;
        (cap_backlog(self.carried, cap), due)
    }
}

/// Whether a portal is live once its action is performed.
pub open spec fn live_after(a: LiveAction, was_live: bool) -> bool {
    match a {
        LiveAction::Admit => true,
        LiveAction::Evict => false,
        LiveAction::Keep => was_live,
    }
}

/// The portals live once the frame's actions are performed.
pub open spec fn live_ids(ids: Seq<u64>, admitted: Seq<u64>, was_live: Seq<bool>) -> Set<u64> {
    Set::new(
        |id: u64|
            exists|k: int|
                0 <= k < ids.len() && #[trigger] ids[k] == id && live_after(
                    live_action(admitted.contains(ids[k]), was_live[k]),
                    was_live[k],
                ),
    )
}

/// A frame never runs more pages than the pool holds: once the liveness
/// actions are performed, a portal is live exactly when it was admitted, so
/// the live portals are among the admitted ones, at most `LIVE_POOL`.
pub proof fn a_frame_keeps_the_pool_bound(ids: Seq<u64>, admitted: Seq<u64>, was_live: Seq<bool>)
    requires
        was_live.len() == ids.len(),
        admitted.len() <= LIVE_POOL,
    ensures
        forall|k: int|
            0 <= k < ids.len() ==> live_after(
                live_action(admitted.contains(ids[k]), was_live[k]),
                was_live[k],
            ) == #[trigger] admitted.contains(ids[k]),
        live_ids(ids, admitted, was_live).subset_of(admitted.to_set()),
        live_ids(ids, admitted, was_live).finite(),
        live_ids(ids, admitted, was_live).len() <= LIVE_POOL,
{
    let l = live_ids(ids, admitted, was_live);
    assert forall|id: u64| l.contains(id) implies admitted.to_set().contains(id) by {
        let k = choose|k: int|
            0 <= k < ids.len() && #[trigger] ids[k] == id && live_after(
                live_action(admitted.contains(ids[k]), was_live[k]),
                was_live[k],
            );
        assert(admitted.contains(ids[k]));
    }
    vstd::seq_lib::seq_to_set_is_finite(admitted);
    admitted.lemma_cardinality_of_set();
    vstd::set_lib::lemma_len_subset(l, admitted.to_set());
}

proof fn dropped_views_facts(views: Seq<(u64, String)>, portals: Seq<PortalView>)
    ensures
        forall|i: int|
            0 <= i < views.len() && !on_board(portals, views[i].0) ==> #[trigger] dropped_views(
                views,
                portals,
            ).contains(views[i].0),
        forall|j: int|
            0 <= j < dropped_views(views, portals).len() ==> !on_board(
                portals,
                #[trigger] dropped_views(views, portals)[j],
            ),
    decreases views.len(),
{
    if views.len() > 0 {
        let t = views.drop_last();
        dropped_views_facts(t, portals);
        let r = dropped_views(t, portals);
        let d = dropped_views(views, portals);
        assert forall|x: u64| r.contains(x) implies d.contains(x) by {
            let m = choose|m: int| 0 <= m < r.len() && r[m] == x;
            assert(d[m] == x);
        }
        assert forall|i: int|
            0 <= i < views.len() && !on_board(portals, views[i].0) implies #[trigger] d.contains(
            views[i].0,
        ) by {
            if i < t.len() {
                assert(t[i] == views[i]);
                assert(r.contains(t[i].0));
            } else {
                assert(d[r.len() as int] == views[i].0);
            }
        }
        assert forall|j: int| 0 <= j < d.len() implies !on_board(portals, #[trigger] d[j]) by {
            if j < r.len() {
                assert(d[j] == r[j]);
            }
        }
    }
}

proof fn rebuilds_on_board(views: Seq<(u64, String)>, portals: Seq<PortalView>)
    ensures
        forall|j: int|
            0 <= j < rebuilds(views, portals).len() ==> on_board(
                portals,
                (#[trigger] rebuilds(views, portals)[j]).0,
            ),
    decreases portals.len(),
{
    if portals.len() > 0 {
        let t = portals.drop_last();
        rebuilds_on_board(views, t);
        let r = rebuilds(views, t);
        let b = rebuilds(views, portals);
        assert forall|j: int| 0 <= j < b.len() implies on_board(portals, (#[trigger] b[j]).0) by {
            if j < r.len() {
                assert(b[j] == r[j]);
                let k = choose|k: int| 0 <= k < t.len() && (#[trigger] t[k]).id == r[j].0;
                assert(portals[k] == t[k]);
            } else {
                assert(b[j].0 == portals.last().id);
                assert(portals[portals.len() - 1] == portals.last());
            }
        }
    }
}

proof fn rebuilds_facts(views: Seq<(u64, String)>, portals: Seq<PortalView>)
    ensures
        forall|k: int|
            0 <= k < portals.len() && rebuild_of(views, #[trigger] portals[k]) is Some
                ==> rebuilds(views, portals).contains(rebuild_of(views, portals[k])->0),
        forall|j: int|
            #![trigger rebuilds(views, portals)[j]]
            0 <= j < rebuilds(views, portals).len() ==> exists|k: int|
                0 <= k < portals.len() && rebuild_of(views, #[trigger] portals[k]) == Some(
                    rebuilds(views, portals)[j],
                ),
    decreases portals.len(),
{
    if portals.len() > 0 {
        let t = portals.drop_last();
        rebuilds_facts(views, t);
        let r = rebuilds(views, t);
        let b = rebuilds(views, portals);
        assert forall|k: int|
            0 <= k < portals.len() && rebuild_of(views, #[trigger] portals[k]) is Some implies b.contains(
            rebuild_of(views, portals[k])->0,
        ) by {
            if k < t.len() {
                assert(portals[k] == t[k]);
                let m = choose|m: int| 0 <= m < r.len() && r[m] == rebuild_of(views, t[k])->0;
                assert(b[m] == r[m]);
            } else {
                assert(portals[k] == portals.last());
                assert(b[r.len() as int] == rebuild_of(views, portals[k])->0);
            }
        }
        assert forall|j: int| #![trigger b[j]] 0 <= j < b.len() implies exists|k: int|
            0 <= k < portals.len() && rebuild_of(views, #[trigger] portals[k]) == Some(b[j]) by {
            if j < r.len() {
                assert(b[j] == r[j]);
                let k = choose|k: int| 0 <= k < t.len() && rebuild_of(views, #[trigger] t[k]) == Some(r[j]);
                assert(portals[k] == t[k]);
            } else {
                assert(portals[portals.len() - 1] == portals.last());
            }
        }
    }
}

/// Which views a frame rebuilds: a portal with no view gets a fresh one with
/// no poster, and a portal whose view was built for another key is rebuilt;
/// a rebuilt view keeps its poster only when its old view was built for the
/// same source, so a different source never shows another page's poster.
/// Focus is given up when the focused portal left the board, and only then
/// while any portal remains.
pub proof fn a_view_is_rebuilt_when_its_key_changes(
    views: Seq<(u64, String)>,
    portals: Seq<PortalView>,
    focused: Option<u64>,
)
    ensures
        forall|k: int|
            0 <= k < portals.len() && find_view(views, (#[trigger] portals[k]).id, 0) is None
                ==> rebuilds(views, portals).contains((portals[k].id, false)),
        forall|k: int|
            0 <= k < portals.len() && (#[trigger] find_view(views, portals[k].id, 0)) is Some
                && views[find_view(views, portals[k].id, 0)->0].1@ != portals[k].key@
                ==> rebuilds(views, portals).contains(
                (
                    portals[k].id,
                    key_of_locator(
                        views[find_view(views, portals[k].id, 0)->0].1@,
                        portals[k].locator@,
                    ),
                ),
            ),
        forall|j: int|
            0 <= j < rebuilds(views, portals).len() && (#[trigger] rebuilds(views, portals)[j]).1
                ==> exists|k: int|
                0 <= k < portals.len() && (#[trigger] portals[k]).id == rebuilds(views, portals)[j].0
                    && find_view(views, portals[k].id, 0) is Some && key_of_locator(
                    views[find_view(views, portals[k].id, 0)->0].1@,
                    portals[k].locator@,
                ),
        portals.len() > 0 ==> (blur_spec(views, portals, focused) <==> focused is Some
            && !on_board(portals, focused->0)),
        portals.len() == 0 ==> (blur_spec(views, portals, focused) <==> views.len() > 0),
{
    rebuilds_facts(views, portals);
    let b = rebuilds(views, portals);
    assert forall|j: int| 0 <= j < b.len() && (#[trigger] b[j]).1 implies exists|k: int|
        0 <= k < portals.len() && (#[trigger] portals[k]).id == b[j].0 && find_view(
            views,
            portals[k].id,
            0,
        ) is Some && key_of_locator(
            views[find_view(views, portals[k].id, 0)->0].1@,
            portals[k].locator@,
        ) by {
        let k = choose|k: int| 0 <= k < portals.len() && rebuild_of(views, #[trigger] portals[k]) == Some(b[j]);
        assert(portals[k].id == b[j].0);
    }
}

/// After a frame's view plan is performed, every view belongs to a portal on
/// the board: each view whose portal left is dropped, only views of portals
/// that left are dropped, and every rebuilt view is of a portal on the
/// board. With no portal left, every view is dropped.
pub proof fn a_frame_keeps_only_views_on_the_board(
    views: Seq<(u64, String)>,
    portals: Seq<PortalView>,
)
    ensures
        forall|i: int|
            0 <= i < views.len() && !on_board(portals, views[i].0) ==> #[trigger] dropped_views(
                views,
                portals,
            ).contains(views[i].0),
        forall|j: int|
            0 <= j < dropped_views(views, portals).len() ==> !on_board(
                portals,
                #[trigger] dropped_views(views, portals)[j],
            ),
        forall|j: int|
            0 <= j < rebuilds(views, portals).len() ==> on_board(
                portals,
                (#[trigger] rebuilds(views, portals)[j]).0,
            ),
        portals.len() == 0 ==> forall|i: int|
            0 <= i < views.len() ==> #[trigger] dropped_views(views, portals).contains(views[i].0),
{
    dropped_views_facts(views, portals);
    rebuilds_on_board(views, portals);
}

} // verus!
