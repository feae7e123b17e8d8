//! Video nodes on the board: the request tokens that tie decoded frames to
//! the clip that asked for them, and which filmstrips stay resident.

use vstd::prelude::*;

verus! {

/// At most this many filmstrips are kept decoded at once.
pub const MAX_STRIPS: usize = 3;

/// Hands out request tokens: 1, 2, 3, ..., wrapping past the largest value
/// back to 1, so a token is never 0.
#[derive(Debug, Clone, Copy)]
pub struct TokenCounter {
    next: u64,
}

/// The token handed out after `t`.
pub open spec fn token_after(t: u64) -> u64 {
    if t == u64::MAX {
        1
    } else {
        (t + 1) as u64
    }
}

impl TokenCounter {
    /// The token the next call hands out.
    pub closed spec fn upcoming(self) -> u64 {
        self.next
    }

    pub fn new() -> (c: Self)
        ensures
            c.upcoming() == 1,
    {
        TokenCounter { next: 1 }
    }

    /// The next token.
    pub fn next_token(&mut self) -> (t: u64)
        ensures
            t == old(self).upcoming(),
            final(self).upcoming() == token_after(old(self).upcoming()),
    {
        let t = self.next;
        let n = self.next.wrapping_add(1);
        self.next = if n < 1 {
            1
        } else {
            n
        };
        t
    }
}

/// A counter that starts at 1 never hands out 0: every token after a
/// nonzero one is nonzero.
pub proof fn tokens_are_never_zero(t: u64)
    requires
        t != 0,
    ensures
        token_after(t) != 0,
{
}

/// `s` without any occurrence of `id`, in order.
pub open spec fn drop_id(s: Seq<u64>, id: u64) -> Seq<u64>
    decreases s.len(),
{
    if s.len() == 0 {
        s
    } else {
        let r = drop_id(s.drop_last(), id);
        if s.last() == id {
            r
        } else {
            r.push(s.last())
        }
    }
}

/// No id twice.
pub open spec fn distinct(s: Seq<u64>) -> bool {
    forall|i: int, j: int| 0 <= i < j < s.len() ==> s[i] != s[j]
}

/// Whether a resident strip may be evicted: it is not the one being loaded,
/// not the playing clip, not the hovered clip.
pub open spec fn evictable(id: u64, keep: u64, playing: Option<u64>, hover: Option<u64>) -> bool {
    id != keep && playing != Some(id) && hover != Some(id)
}

/// The ids of `s` that may be evicted, oldest first.
pub open spec fn evictable_ids(s: Seq<u64>, keep: u64, playing: Option<u64>, hover: Option<u64>) -> Seq<
    u64,
>
    decreases s.len(),
{
    if s.len() == 0 {
        s
    } else {
        let r = evictable_ids(s.drop_last(), keep, playing, hover);
        if evictable(s.last(), keep, playing, hover) {
            r.push(s.last())
        } else {
            r
        }
    }
}

/// Touching a strip makes it the newest: the rest of the order loses it and
/// keeps every other id, and an order without repeats stays so.
pub proof fn touch_keeps_one_entry_per_strip(s: Seq<u64>, id: u64)
    ensures
        !drop_id(s, id).contains(id),
        forall|x: u64| x != id ==> (drop_id(s, id).contains(x) <==> s.contains(x)),
        distinct(s) ==> distinct(drop_id(s, id)),
        distinct(s) ==> distinct(drop_id(s, id).push(id)),
    decreases s.len(),
{
    if s.len() > 0 {
        let t = s.drop_last();
        touch_keeps_one_entry_per_strip(t, id);
        let r = drop_id(t, id);
        let d = drop_id(s, id);
        assert forall|x: u64| r.contains(x) implies d.contains(x) by {
            let k = choose|k: int| 0 <= k < r.len() && r[k] == x;
            assert(d[k] == x);
        }
        assert forall|x: u64| x != id implies (d.contains(x) <==> s.contains(x)) by {
            if s.contains(x) {
                let k = choose|k: int| 0 <= k < s.len() && s[k] == x;
                if k < t.len() {
                    assert(t[k] == x);
                    assert(t.contains(x));
                    assert(r.contains(x));
                } else {
                    assert(d[r.len() as int] == x);
                }
            }
            if d.contains(x) {
                let k = choose|k: int| 0 <= k < d.len() && d[k] == x;
                if k < r.len() {
                    assert(r[k] == x);
                    assert(r.contains(x));
                    assert(t.contains(x));
                    let m = choose|m: int| 0 <= m < t.len() && t[m] == x;
                    assert(s[m] == x);
                } else {
                    assert(s[s.len() - 1] == x);
                }
            }
        }
        if d.contains(id) {
            let k = choose|k: int| 0 <= k < d.len() && d[k] == id;
            if k < r.len() {
                assert(r[k] == id);
                assert(r.contains(id));
            }
        }
        if distinct(s) {
            assert(distinct(t)) by {
                assert forall|i: int, j: int| 0 <= i < j < t.len() implies t[i] != t[j] by {
                    assert(t[i] == s[i] && t[j] == s[j]);
                }
            }
            assert(distinct(r));
            assert(distinct(d)) by {
                if s.last() != id {
                    assert(!r.contains(s.last())) by {
                        if r.contains(s.last()) {
                            assert(t.contains(s.last()));
                            let m = choose|m: int| 0 <= m < t.len() && t[m] == s.last();
                            assert(s[m] == s[s.len() - 1]);
                        }
                    }
                    assert forall|i: int, j: int| 0 <= i < j < d.len() implies d[i] != d[j] by {
                        if j == r.len() {
                            assert(d[i] == r[i]);
                            assert(r.contains(r[i]));
                        } else {
                            assert(d[i] == r[i] && d[j] == r[j]);
                        }
                    }
                }
            }
            let e = d.push(id);
            assert forall|i: int, j: int| 0 <= i < j < e.len() implies e[i] != e[j] by {
                if j == d.len() {
                    assert(e[i] == d[i]);
                    assert(d.contains(d[i]));
                } else {
                    assert(e[i] == d[i] && e[j] == d[j]);
                }
            }
        }
    } else {
        let e = drop_id(s, id).push(id);
        assert(e.len() == 1);
    }
}

fn without(v: &Vec<u64>, id: u64) -> (r: Vec<u64>)
    ensures
        r@ == drop_id(v@, id),
{
    let mut r: Vec<u64> = Vec::new();
    let mut i: usize = 0;
    while i < v.len()
        invariant
            i <= v@.len(),
            r@ == drop_id(v@.take(i as int), id),
        decreases v.len() - i,
    {
        assert(v@.take(i as int + 1).drop_last() =~= v@.take(i as int));
        if v[i] != id {
            r.push(v[i]);
        }
        i = i + 1;
    }
    assert(v@.take(v@.len() as int) =~= v@);
    r
}

/// The order in which filmstrips became resident, oldest first.
#[derive(Debug, Clone)]
pub struct StripLru {
    order: Vec<u64>,
}

impl View for StripLru {
    type V = Seq<u64>;

    closed spec fn view(&self) -> Seq<u64> {
        self.order@
    }
}

impl StripLru {
    pub fn new() -> (l: Self)
        ensures
            l@ == Seq::<u64>::empty(),
    {
        StripLru { order: Vec::new() }
    }

    /// Mark `id` as the most recently used strip.
    pub fn touch(&mut self, id: u64)
        ensures
            final(self)@ == drop_id(old(self)@, id).push(id),
            distinct(old(self)@) ==> distinct(final(self)@),
    {
        proof {
            touch_keeps_one_entry_per_strip(self.order@, id);
        }
        let mut order = without(&self.order, id);
        order.push(id);
        self.order = order;
    }

    /// Forget `id` (its strip was dropped).
    pub fn forget(&mut self, id: u64)
        ensures
            final(self)@ == drop_id(old(self)@, id),
            distinct(old(self)@) ==> distinct(final(self)@),
    {
        proof {
            touch_keeps_one_entry_per_strip(self.order@, id);
        }
        self.order = without(&self.order, id);
    }

    /// Which strips to drop before one more is loaded while `resident` are
    /// held: the oldest evictable ones, as many as it takes to get below
    /// `MAX_STRIPS`, or every evictable one if that is not enough. The
    /// victims leave the order; the rest keep theirs.
    pub fn evict(
        &mut self,
        resident: usize,
        keep: u64,
        playing: Option<u64>,
        hover: Option<u64>,
    ) -> (victims: Vec<u64>)
        requires
            distinct(old(self)@),
        ensures
            victims@ == evictable_ids(old(self)@, keep, playing, hover).take(
                victims@.len() as int,
            ),
            victims@.len() == min_int(
                needed(resident as int),
                evictable_ids(old(self)@, keep, playing, hover).len() as int,
            ),
            final(self)@ == drop_all(old(self)@, victims@),
            distinct(final(self)@),
    {
        let need: usize = if resident >= MAX_STRIPS {
            resident - MAX_STRIPS + 1
        } else {
            0
        };
        let ghost start = self.order@;
        let mut victims: Vec<u64> = Vec::new();
        let mut kept: Vec<u64> = Vec::new();
        let mut i: usize = 0;
        while i < self.order.len()
            invariant
                self.order@ == start,
                distinct(start),
                i <= start.len(),
                need == needed(resident as int),
                victims@ == evictable_ids(start.take(i as int), keep, playing, hover).take(
                    victims@.len() as int,
                ),
                victims@.len() == min_int(
                    need as int,
                    evictable_ids(start.take(i as int), keep, playing, hover).len() as int,
                ),
                kept@ == drop_all(start.take(i as int), victims@),
                forall|x: u64| #[trigger] victims@.contains(x) ==> start.take(i as int).contains(x),
            decreases self.order.len() - i,
        {
            let x = self.order[i];
            let ghost t = start.take(i as int);
            let ghost e = evictable_ids(t, keep, playing, hover);
            assert(start.take(i as int + 1).drop_last() =~= t);
            assert(!t.contains(x)) by {
                if t.contains(x) {
                    let m = choose|m: int| 0 <= m < t.len() && t[m] == x;
                    assert(start[m] == start[i as int]);
                }
            }
            let can = x != keep && playing != Some(x) && hover != Some(x);
            if victims.len() < need && can {
                let ghost old_v = victims@;
                victims.push(x);
                proof {
                    assert(old_v.len() == e.len());
                    assert(old_v =~= e);
                    drop_all_fresh(t, old_v, x);
                    assert(victims@ == old_v.push(x));
                    assert(victims@[old_v.len() as int] == x);
                    assert(victims@.contains(x));
                    assert(start.take(i as int + 1).last() == x);
                    assert(drop_all(start.take(i as int + 1), victims@) == drop_all(t, victims@));
                    assert forall|y: u64| #[trigger] victims@.contains(y) implies start.take(
                        i as int + 1,
                    ).contains(y) by {
                        let m = choose|m: int| 0 <= m < victims@.len() && victims@[m] == y;
                        if m < old_v.len() {
                            assert(old_v[m] == y);
                            assert(old_v.contains(y));
                            assert(t.contains(y));
                            let q = choose|q: int| 0 <= q < t.len() && t[q] == y;
                            assert(start.take(i as int + 1)[q] == y);
                        } else {
                            assert(start.take(i as int + 1)[i as int] == y);
                        }
                    }
                }
            } else {
                kept.push(x);
                proof {
                    if can {
                        assert(victims@.len() == need);
                        assert(e.push(x).take(victims@.len() as int) =~= e.take(
                            victims@.len() as int,
                        ));
                    }
                    assert(!victims@.contains(x));
                    assert(start.take(i as int + 1).last() == x);
                    assert forall|y: u64| #[trigger] victims@.contains(y) implies start.take(
                        i as int + 1,
                    ).contains(y) by {
                        assert(t.contains(y));
                        let q = choose|q: int| 0 <= q < t.len() && t[q] == y;
                        assert(start.take(i as int + 1)[q] == y);
                    }
                }
            }
            i = i + 1;
        }
        assert(start.take(start.len() as int) =~= start);
        proof {
            drop_all_distinct(start, victims@);
        }
        self.order = kept;
        victims
    }
}

/// The smaller of two integers.
pub open spec fn min_int(a: int, b: int) -> int {
    if a <= b {
        a
    } else {
        b
    }
}

/// How many strips must go before one more is loaded while `resident` are
/// held.
pub open spec fn needed(resident: int) -> int {
    if resident >= MAX_STRIPS {
        resident - MAX_STRIPS + 1
    } else {
        0
    }
}

/// `s` without the ids in `gone`, in order.
pub open spec fn drop_all(s: Seq<u64>, gone: Seq<u64>) -> Seq<u64>
    decreases s.len(),
{
    if s.len() == 0 {
        s
    } else {
        let r = drop_all(s.drop_last(), gone);
        if gone.contains(s.last()) {
            r
        } else {
            r.push(s.last())
        }
    }
}

/// Adding an id that `s` does not hold to `gone` changes nothing.
proof fn drop_all_fresh(s: Seq<u64>, gone: Seq<u64>, x: u64)
    requires
        !s.contains(x),
    ensures
        drop_all(s, gone.push(x)) == drop_all(s, gone),
    decreases s.len(),
{
    if s.len() > 0 {
        let t = s.drop_last();
        assert(!t.contains(x)) by {
            if t.contains(x) {
                let m = choose|m: int| 0 <= m < t.len() && t[m] == x;
                assert(s[m] == x);
            }
        }
        drop_all_fresh(t, gone, x);
        assert(s.last() != x) by {
            assert(s[s.len() - 1] == s.last());
        }
        assert(gone.push(x).contains(s.last()) == gone.contains(s.last())) by {
            if gone.push(x).contains(s.last()) {
                let m = choose|m: int| 0 <= m < gone.push(x).len() && gone.push(x)[m] == s.last();
                if m < gone.len() {
                    assert(gone[m] == s.last());
                }
            }
            if gone.contains(s.last()) {
                let m = choose|m: int| 0 <= m < gone.len() && gone[m] == s.last();
                assert(gone.push(x)[m] == s.last());
            }
        }
    }
}

/// What is left of a list without repeats has none.
proof fn drop_all_distinct(s: Seq<u64>, gone: Seq<u64>)
    requires
        distinct(s),
    ensures
        distinct(drop_all(s, gone)),
        forall|x: u64| #[trigger] drop_all(s, gone).contains(x) ==> s.contains(x),
    decreases s.len(),
{
    if s.len() > 0 {
        let t = s.drop_last();
        assert(distinct(t)) by {
            assert forall|i: int, j: int| 0 <= i < j < t.len() implies t[i] != t[j] by {
                assert(t[i] == s[i] && t[j] == s[j]);
            }
        }
        drop_all_distinct(t, gone);
        let r = drop_all(t, gone);
        assert forall|x: u64| #[trigger] drop_all(s, gone).contains(x) implies s.contains(x) by {
            let k = choose|k: int| 0 <= k < drop_all(s, gone).len() && drop_all(s, gone)[k] == x;
            if k < r.len() {
                assert(r[k] == x);
                assert(r.contains(x));
                let m = choose|m: int| 0 <= m < t.len() && t[m] == x;
                assert(s[m] == x);
            } else {
                assert(s[s.len() - 1] == x);
            }
        }
        if !gone.contains(s.last()) {
            let d = r.push(s.last());
            assert forall|i: int, j: int| 0 <= i < j < d.len() implies d[i] != d[j] by {
                if j == r.len() {
                    assert(d[i] == r[i]);
                    if r[i] == s.last() {
                        assert(r.contains(r[i]));
                        let m = choose|m: int| 0 <= m < t.len() && t[m] == r[i];
                        assert(s[m] == s[s.len() - 1]);
                    }
                } else {
                    assert(d[i] == r[i] && d[j] == r[j]);
                }
            }
        }
    }
}

} // verus!

verus! {

/// The filmstrip of the clip an event is about, as far as events decide.
#[derive(Debug, Clone, Copy, PartialEq, Eq, Structural)]
pub struct StripFacts {
    /// The request token the strip was started with.
    pub token: u64,
    /// Its duration is known.
    pub probed: bool,
    /// Every frame has arrived.
    pub done: bool,
    /// Frames are still being decoded.
    pub inflight: bool,
    /// The clip could not be decoded.
    pub failed: bool,
    /// How many frame slots it has.
    pub slots: u64,
}

/// The clip that is playing, if any.
#[derive(Debug, Clone, Copy, PartialEq, Eq, Structural)]
pub struct PlayFacts {
    pub id: u64,
    pub token: u64,
}

/// What an event from the decoder may change: the strip of the event's clip
/// and the playback.
#[derive(Debug, Clone, Copy, PartialEq, Eq, Structural)]
pub struct VideoFacts {
    pub strip: Option<StripFacts>,
    pub play: Option<PlayFacts>,
}

/// An event from the decoder, for clip `id`, answering request `token`.
#[derive(Debug, Clone, Copy, PartialEq, Eq, Structural)]
pub enum VideoEventKind {
    /// The clip's duration is known.
    Probed { id: u64, token: u64 },
    /// Filmstrip frame `index` arrived.
    Strip { id: u64, token: u64, index: u64 },
    /// The filmstrip is complete.
    StripDone { id: u64, token: u64 },
    /// A playback frame arrived.
    Play { id: u64, token: u64 },
    /// Playback reached the end.
    Ended { id: u64, token: u64 },
    /// Decoding failed.
    Failed { id: u64, token: u64 },
}

/// What the application does for an event, beyond the facts it stores back.
#[derive(Debug, Clone, Copy, PartialEq, Eq, Structural)]
pub enum VideoAction {
    /// The event is stale or does not apply.
    Ignore,
    /// Record the probed duration on the strip (`strip`) and recompute the
    /// playing clip's window from it (`play`).
    Probed { strip: bool, play: bool },
    /// Store the frame in slot `index` of the strip.
    StoreSlot { index: u64 },
    /// The strip was updated; nothing else to do.
    StripChanged,
    /// Show the frame as the playing clip's live frame.
    ShowFrame,
    /// Playback stopped: pause the clip at its end (`at_end`) or where the
    /// play clock stands, and stop the decoder.
    StopPlayback { at_end: bool },
}

/// Whether the playing clip is `id`, started with `token`.
pub open spec fn playing(s: VideoFacts, id: u64, token: u64) -> bool {
    s.play matches Some(p) && p.id == id && p.token == token
}

/// Whether the strip was started with `token`.
pub open spec fn strip_token(s: VideoFacts, token: u64) -> bool {
    s.strip matches Some(st) && st.token == token
}

/// The facts and action an event leads to. Every event answers one request:
/// an event whose token is not the current one for its strip or playback is
/// ignored.
pub open spec fn video_step_spec(s: VideoFacts, ev: VideoEventKind) -> (VideoFacts, VideoAction) {
    match ev {
        VideoEventKind::Probed { id, token } => {
            let st = strip_token(s, token);
            let pl = playing(s, id, token);
            (
                VideoFacts {
                    strip: if st {
                        Some(StripFacts { probed: true, ..s.strip->0 })
                    } else {
                        s.strip
                    },
                    ..s
                },
                if st || pl {
                    VideoAction::Probed { strip: st, play: pl }
                } else {
                    VideoAction::Ignore
                },
            )
        },
        VideoEventKind::Strip { token, index, .. } => {
            if strip_token(s, token) && !s.strip->0.failed && index < s.strip->0.slots {
                (s, VideoAction::StoreSlot { index })
            } else {
                (s, VideoAction::Ignore)
            }
        },
        VideoEventKind::StripDone { token, .. } => {
            if strip_token(s, token) {
                (
                    VideoFacts {
                        strip: Some(StripFacts { done: true, inflight: false, ..s.strip->0 }),
                        ..s
                    },
                    VideoAction::StripChanged,
                )
            } else {
                (s, VideoAction::Ignore)
            }
        },
        VideoEventKind::Play { id, token } => {
            if playing(s, id, token) {
                (s, VideoAction::ShowFrame)
            } else {
                (s, VideoAction::Ignore)
            }
        },
        VideoEventKind::Ended { id, token } => {
            if playing(s, id, token) {
                (VideoFacts { play: None, ..s }, VideoAction::StopPlayback { at_end: true })
            } else {
                (s, VideoAction::Ignore)
            }
        },
        VideoEventKind::Failed { id, token } => {
            if playing(s, id, token) {
                (
                    VideoFacts {
                        play: None,
                        strip: if s.strip is Some && !s.strip->0.probed {
                            Some(StripFacts { failed: true, inflight: false, ..s.strip->0 })
                        } else {
                            s.strip
                        },
                    },
                    VideoAction::StopPlayback { at_end: false },
                )
            } else if strip_token(s, token) {
                (
                    VideoFacts {
                        strip: Some(StripFacts { failed: true, inflight: false, ..s.strip->0 }),
                        ..s
                    },
                    VideoAction::StripChanged,
                )
            } else {
                (s, VideoAction::Ignore)
            }
        },
    }
}

/// Apply one decoder event to the facts it may change; see
/// `video_step_spec`.
pub fn video_event_step(s: &VideoFacts, ev: VideoEventKind) -> (r: (VideoFacts, VideoAction))
    ensures
        r == video_step_spec(*s, ev),
{
    let strip_tok = |token: u64| -> (b: bool)
        ensures
            b == strip_token(*s, token),
        {
            match s.strip {
                Some(st) => st.token == token,
                None => false,
            }
        };
    let is_playing = |id: u64, token: u64| -> (b: bool)
        ensures
            b == playing(*s, id, token),
        {
            match s.play {
                Some(p) => p.id == id && p.token == token,
                None => false,
            }
        };
    match ev {
        VideoEventKind::Probed { id, token } => {
            let st = strip_tok(token);
            let pl = is_playing(id, token);
            let strip = match s.strip {
                Some(x) => if st {
                    Some(StripFacts { probed: true, ..x })
                } else {
                    s.strip
                },
                None => None,
            };
            let action = if st || pl {
                VideoAction::Probed { strip: st, play: pl }
            } else {
                VideoAction::Ignore
            };
            (VideoFacts { strip, play: s.play }, action)
        },
        VideoEventKind::Strip { token, index, .. } => {
            match s.strip {
                Some(x) => {
                    if x.token == token && !x.failed && index < x.slots {
                        return (*s, VideoAction::StoreSlot { index });
                    }
                },
                None => {},
            }
            (*s, VideoAction::Ignore)
        },
        VideoEventKind::StripDone { token, .. } => {
            match s.strip {
                Some(x) => {
                    if x.token == token {
                        return (
                            VideoFacts {
                                strip: Some(StripFacts { done: true, inflight: false, ..x }),
                                play: s.play,
                            },
                            VideoAction::StripChanged,
                        );
                    }
                },
                None => {},
            }
            (*s, VideoAction::Ignore)
        },
        VideoEventKind::Play { id, token } => {
            if is_playing(id, token) {
                (*s, VideoAction::ShowFrame)
            } else {
                (*s, VideoAction::Ignore)
            }
        },
        VideoEventKind::Ended { id, token } => {
            if is_playing(id, token) {
                (VideoFacts { strip: s.strip, play: None }, VideoAction::StopPlayback { at_end: true })
            } else {
                (*s, VideoAction::Ignore)
            }
        },
        VideoEventKind::Failed { id, token } => {
            if is_playing(id, token) {
                let strip = match s.strip {
                    Some(x) => if !x.probed {
                        Some(StripFacts { failed: true, inflight: false, ..x })
                    } else {
                        s.strip
                    },
                    None => None,
                };
                return (VideoFacts { strip, play: None }, VideoAction::StopPlayback { at_end: false });
            }
            match s.strip {
                Some(x) => {
                    if x.token == token {
                        return (
                            VideoFacts {
                                strip: Some(StripFacts { failed: true, inflight: false, ..x }),
                                play: s.play,
                            },
                            VideoAction::StripChanged,
                        );
                    }
                },
                None => {},
            }
            (*s, VideoAction::Ignore)
        },
    }
}

/// What a current event does:
/// - no event starts a playback: afterwards the playback is the one before,
///   or none;
/// - a playback frame of the playing clip is shown;
/// - the end of the playing clip stops it at its end, and a decode failure
///   of it stops it where it stands, leaving an unprobed strip failed;
/// - a strip frame is stored only for the current strip, not failed, and in
///   range; a failed strip stores no more frames;
/// - a finished strip is marked done and no longer in flight; a failure
///   answering the strip (with no playback to answer) marks it failed;
/// - a probe answering the strip marks it probed; the strip keeps its
///   token and slot count through every event.
pub proof fn a_current_event_is_answered(s: VideoFacts, ev: VideoEventKind)
    ensures
        video_step_spec(s, ev).0.play is None || video_step_spec(s, ev).0.play == s.play,
        s.strip is Some ==> video_step_spec(s, ev).0.strip is Some && video_step_spec(
            s,
            ev,
        ).0.strip->0.token == s.strip->0.token && video_step_spec(s, ev).0.strip->0.slots
            == s.strip->0.slots,
        ev matches VideoEventKind::Play { id, token } ==> (video_step_spec(s, ev).1
            == VideoAction::ShowFrame <==> playing(s, id, token)),
        ev matches VideoEventKind::Ended { id, token } && playing(s, id, token) ==> video_step_spec(
            s,
            ev,
        ) == (VideoFacts { play: None, strip: s.strip }, VideoAction::StopPlayback { at_end: true }),
        ev matches VideoEventKind::Failed { id, token } && playing(s, id, token) ==> ({
            let r = video_step_spec(s, ev);
            &&& r.1 == VideoAction::StopPlayback { at_end: false }
            &&& r.0.play is None
            &&& (s.strip is Some && !s.strip->0.probed ==> r.0.strip->0.failed
                && !r.0.strip->0.inflight)
            &&& (s.strip is Some && s.strip->0.probed ==> r.0.strip == s.strip)
        }),
        ev matches VideoEventKind::Strip { token, index, .. } ==> ({
            let r = video_step_spec(s, ev);
            &&& r.0 == s
            &&& (r.1 == (VideoAction::StoreSlot { index }) <==> strip_token(s, token)
                && !s.strip->0.failed && index < s.strip->0.slots)
            &&& (r.1 is StoreSlot || r.1 is Ignore)
        }),
        ev matches VideoEventKind::StripDone { token, .. } && strip_token(s, token) ==> ({
            let r = video_step_spec(s, ev);
            &&& r.1 == VideoAction::StripChanged
            &&& r.0.play == s.play
            &&& r.0.strip->0.done && !r.0.strip->0.inflight
            &&& r.0.strip->0.failed == s.strip->0.failed
            &&& r.0.strip->0.probed == s.strip->0.probed
        }),
        ev matches VideoEventKind::Failed { id, token } && !playing(s, id, token) && strip_token(
            s,
            token,
        ) ==> ({
            let r = video_step_spec(s, ev);
            &&& r.1 == VideoAction::StripChanged
            &&& r.0.play == s.play
            &&& r.0.strip->0.failed && !r.0.strip->0.inflight
        }),
        ev matches VideoEventKind::Probed { id, token } ==> ({
            let r = video_step_spec(s, ev);
            &&& r.0.play == s.play
            &&& (strip_token(s, token) ==> r.0.strip->0.probed)
            &&& (r.1 is Ignore <==> !strip_token(s, token) && !playing(s, id, token))
        }),
{
}

/// An event never revives what it answers to a stale request: a token that
/// matches neither the strip nor the playback leaves the facts as they were
/// and asks for nothing.
pub proof fn a_stale_event_changes_nothing(s: VideoFacts, ev: VideoEventKind)
    requires
        s.strip matches Some(st) ==> st.token != (match ev {
            VideoEventKind::Probed { token, .. } => token,
            VideoEventKind::Strip { token, .. } => token,
            VideoEventKind::StripDone { token, .. } => token,
            VideoEventKind::Play { token, .. } => token,
            VideoEventKind::Ended { token, .. } => token,
            VideoEventKind::Failed { token, .. } => token,
        }),
        s.play matches Some(p) ==> p.token != (match ev {
            VideoEventKind::Probed { token, .. } => token,
            VideoEventKind::Strip { token, .. } => token,
            VideoEventKind::StripDone { token, .. } => token,
            VideoEventKind::Play { token, .. } => token,
            VideoEventKind::Ended { token, .. } => token,
            VideoEventKind::Failed { token, .. } => token,
        }),
    ensures
        video_step_spec(s, ev) == (s, VideoAction::Ignore),
{
}

} // verus!
