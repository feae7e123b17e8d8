//! Web portal states, their health dot and their chrome words, and the
//! locator rules the portal runtime applies.
//!
//! Everything here is derived state: a portal's state, its consent grants and
//! its poster are never written into the workbook.

use vstd::prelude::*;
use crate::text::{
    ascii_lower, chars_of, decimal, decimal_chars, has_prefix, push_char, push_chars, push_str,
    push_padded, starts_with_at, string_from_chars, sub_chars, to_ascii_lower, zero_padded,
};

verus! {

#[verifier::external_type_specification]
#[verifier::external_body]
pub struct ExInstant(std::time::Instant);

/// `Instant` is `Copy`: its `clone` hands back the same instant.
pub assume_specification[<std::time::Instant as Clone>::clone](t: &std::time::Instant) -> (r:
    std::time::Instant)
    ensures
        r == *t,
;

/// Every state a web portal can be in, each of which says itself on the frame
/// rather than leaving it blank.
#[derive(Debug, Clone)]
pub enum WebState {
    /// No locator yet: the draw grammar always commits here.
    Unbound,
    /// Not yet resolved. Neutral, never blocking.
    Unknown,
    /// A remote origin the human has not permitted yet.
    Blocked { origin: String },
    Loading,
    /// Holding a pool slot and rendering.
    Live,
    /// Eligible, but the pool was full: showing its last frame.
    Budgeted,
    /// Stale by construction, and the age is stated.
    Poster { captured: std::time::Instant },
    Missing { locator: String },
    Refused { reason: String },
    /// No WebView2 runtime on this machine.
    NoRuntime,
    /// Painted smaller than the live gate.
    TooSmall,
}

/// The health dot: three states, never more.
#[derive(Debug, Clone, Copy, PartialEq, Eq, Structural)]
pub enum WebHealth {
    /// Live, loading, budgeted, or showing a poster.
    Good,
    Unknown,
    Missing,
}

/// What a portal is worth drawing at its current on-screen size.
#[derive(Debug, Clone, Copy, PartialEq, Eq, Structural)]
pub enum WebLod {
    /// No live webview. The last poster still paints.
    Strip,
    /// The cached poster.
    Poster,
    /// Big enough on screen to be worth a webview, if the pool has room.
    Eligible,
}

/// A short age: seconds under a minute, then minutes, hours, and days, each
/// rounded down.
pub open spec fn ago_spec(secs: nat) -> Seq<char> {
    if secs < 60 {
        decimal(secs).push('s')
    } else if secs < 3600 {
        decimal(secs / 60).push('m')
    } else if secs < 86_400 {
        decimal(secs / 3600).push('h')
    } else {
        decimal(secs / 86_400).push('d')
    }
}

/// The seconds in the unit an age is written in.
pub open spec fn unit_secs(u: char) -> nat {
    if u == 'm' {
        60
    } else if u == 'h' {
        3600
    } else if u == 'd' {
        86_400
    } else {
        1
    }
}

/// An age is written in the largest whole unit: a number of seconds,
/// minutes, hours or days, rounded down, that is at least one (unless in
/// seconds) and under the next unit (unless in days).
pub proof fn an_age_reads_in_its_largest_whole_unit(secs: nat)
    ensures
        ({
            let r = ago_spec(secs);
            let u = r.last();
            &&& r.len() > 0
            &&& (u == 's' || u == 'm' || u == 'h' || u == 'd')
            &&& r == crate::text::decimal(secs / unit_secs(u)).push(u)
            &&& (u == 's' || unit_secs(u) <= secs)
            &&& (u == 's' ==> secs < 60)
            &&& (u == 'm' ==> secs < 3600)
            &&& (u == 'h' ==> secs < 86_400)
        }),
{
}

/// The age of a poster, `secs` seconds old, as the chrome strip says it.
pub fn ago(secs: u64) -> (s: String)
    ensures
        s@ == ago_spec(secs as nat),
{
    let (n, unit) = if secs < 60 {
        (secs, 's')
    } else if secs < 3600 {
        (secs / 60, 'm')
    } else if secs < 86_400 {
        (secs / 3600, 'h')
    } else {
        (secs / 86_400, 'd')
    };
    let mut s = String::new();
    let d = decimal_chars(n);
    push_chars(&mut s, &d);
    push_char(&mut s, unit);
    s
}

/// `Instant::elapsed`: the monotonic clock's time since `t`. Nothing is
/// claimed of it: it depends on when it is asked.
#[verifier::external_body]
fn elapsed_since(t: &std::time::Instant) -> std::time::Duration {
    t.elapsed()
}

/// `Duration::as_secs`: the whole seconds of a duration. Nothing is claimed
/// of the result, as `Duration` is opaque here; its one caller hands it a
/// clock reading and states only that some age was shown.
#[verifier::external_body]
fn whole_secs(d: &std::time::Duration) -> u64 {
    d.as_secs()
}

impl WebState {
    /// The chrome word for this state, with a poster `age` seconds old.
    pub open spec fn label_spec(&self, age: nat) -> Seq<char> {
        match self {
            WebState::Unbound => "unbound"@,
            WebState::Unknown => "resolving…"@,
            WebState::Blocked { origin } => "blocked · "@ + origin@,
            WebState::Loading => "loading…"@,
            WebState::Live => "live"@,
            WebState::Budgeted => "budgeted"@,
            WebState::Poster { .. } => "poster · "@ + ago_spec(age),
            WebState::Missing { .. } => "missing"@,
            WebState::Refused { reason } => "refused · "@ + reason@,
            WebState::NoRuntime => "no WebView2 runtime"@,
            WebState::TooSmall => "zoom in to run"@,
        }
    }

    /// Every state says itself: its word is never empty; a poster's word
    /// ends with its age and a blocked page's with its origin. The health
    /// dot is missing exactly for a missing or refused source, good exactly
    /// for a page that is live, loading, budgeted or shown by its poster,
    /// and unknown otherwise.
    pub proof fn each_state_says_itself(&self, age: nat)
        ensures
            self.label_spec(age).len() > 0,
            self is Poster ==> self.label_spec(age).skip(
                self.label_spec(age).len() - ago_spec(age).len(),
            ) == ago_spec(age),
            self is Blocked ==> self.label_spec(age).skip(
                self.label_spec(age).len() - self->origin@.len(),
            ) == self->origin@,
            (self.health_spec() == WebHealth::Missing) <==> (self is Missing || self is Refused),
            (self.health_spec() == WebHealth::Good) <==> (self is Live || self is Loading
                || self is Budgeted || self is Poster),
    {
        reveal_strlit("unbound");
        reveal_strlit("resolving…");
        reveal_strlit("blocked · ");
        reveal_strlit("loading…");
        reveal_strlit("live");
        reveal_strlit("budgeted");
        reveal_strlit("poster · ");
        reveal_strlit("missing");
        reveal_strlit("refused · ");
        reveal_strlit("no WebView2 runtime");
        reveal_strlit("zoom in to run");
        match self {
            WebState::Poster { .. } => {
                let p = "poster · "@;
                assert((p + ago_spec(age)).skip(p.len() as int) =~= ago_spec(age));
            },
            WebState::Blocked { origin } => {
                let p = "blocked · "@;
                assert((p + origin@).skip(p.len() as int) =~= origin@);
            },
            _ => {},
        }
    }

    /// The short word the chrome strip shows, for a poster `age_secs` old.
    pub fn label_aged(&self, age_secs: u64) -> (s: String)
        ensures
            s@ == self.label_spec(age_secs as nat),
    {
        match self {
            WebState::Unbound => String::from_str("unbound"),
            WebState::Unknown => String::from_str("resolving…"),
            WebState::Blocked { origin } => {
                let mut s = String::from_str("blocked · ");
                push_str(&mut s, origin.as_str());
                s
            },
            WebState::Loading => String::from_str("loading…"),
            WebState::Live => String::from_str("live"),
            WebState::Budgeted => String::from_str("budgeted"),
            WebState::Poster { .. } => {
                let mut s = String::from_str("poster · ");
                let a = ago(age_secs);
                push_str(&mut s, a.as_str());
                s
            },
            WebState::Missing { .. } => String::from_str("missing"),
            WebState::Refused { reason } => {
                let mut s = String::from_str("refused · ");
                push_str(&mut s, reason.as_str());
                s
            },
            WebState::NoRuntime => String::from_str("no WebView2 runtime"),
            WebState::TooSmall => String::from_str("zoom in to run"),
        }
    }

    /// The short word the chrome strip shows. A poster's age is read from
    /// the clock when it is asked for.
    pub fn label(&self) -> (s: String)
        ensures
            exists|age: nat| s@ == self.label_spec(age),
    {
        let age = match self {
            WebState::Poster { captured } => {
                let d = elapsed_since(captured);
                whole_secs(&d)
            },
            _ => 0,
        };
        self.label_aged(age)
    }

    /// The health dot for this state.
    pub open spec fn health_spec(&self) -> WebHealth {
        match self {
            WebState::Live | WebState::Budgeted | WebState::Poster { .. } | WebState::Loading => {
                WebHealth::Good
            },
            WebState::Missing { .. } | WebState::Refused { .. } => WebHealth::Missing,
            _ => WebHealth::Unknown,
        }
    }

    /// The health dot: three states, never more.
    pub fn health(&self) -> (h: WebHealth)
        ensures
            h == self.health_spec(),
    {
        match self {
            WebState::Live | WebState::Budgeted | WebState::Poster { .. } | WebState::Loading => {
                WebHealth::Good
            },
            WebState::Missing { .. } | WebState::Refused { .. } => WebHealth::Missing,
            _ => WebHealth::Unknown,
        }
    }
}

} // verus!

verus! {

/// `s` without trailing `'/'`.
pub open spec fn trim_end_slashes(s: Seq<char>) -> Seq<char>
    decreases s.len(),
{
    if s.len() > 0 && s.last() == '/' {
        trim_end_slashes(s.drop_last())
    } else {
        s
    }
}

/// `s` with every leading copy of the non-empty pattern `p` removed.
pub open spec fn trim_start_pattern(s: Seq<char>, p: Seq<char>) -> Seq<char>
    decreases s.len(),
{
    if p.len() > 0 && has_prefix(s, p) {
        trim_start_pattern(s.subrange(p.len() as int, s.len() as int), p)
    } else {
        s
    }
}

/// How a page address compares: trailing slashes and the `file:///` form
/// dropped, backslashes read as slashes, ASCII case ignored.
pub open spec fn page_char(c: char) -> char {
    ascii_lower(if c == '\\' { '/' } else { c })
}

pub open spec fn page_key(s: Seq<char>) -> Seq<char> {
    trim_start_pattern(trim_end_slashes(s), "file:///"@).map_values(|c: char| page_char(c))
}

/// The span of `v` that `page_key` keeps before mapping characters.
fn page_span(v: &[char], pat: &[char]) -> (r: (usize, usize))
    requires
        pat@ == "file:///"@,
    ensures
        r.0 <= r.1 <= v@.len(),
        v@.subrange(r.0 as int, r.1 as int) == trim_start_pattern(trim_end_slashes(v@), pat@),
{
    let mut b = v.len();
    assert(v@.subrange(0, v@.len() as int) =~= v@);
    while b > 0 && v[b - 1] == '/'
        invariant
            b <= v@.len(),
            trim_end_slashes(v@) == trim_end_slashes(v@.subrange(0, b as int)),
        decreases b,
    {
        assert(v@.subrange(0, b as int).drop_last() =~= v@.subrange(0, b - 1));
        b = b - 1;
    }
    let mut a: usize = 0;
    proof {
        reveal_strlit("file:///");
    }
    while a <= b && starts_with_at(v, a, b, pat)
        invariant
            a <= b <= v@.len(),
            pat@.len() == 8,
            trim_start_pattern(trim_end_slashes(v@), pat@) == trim_start_pattern(
                v@.subrange(a as int, b as int),
                pat@,
            ),
        decreases b - a,
    {
        assert(v@.subrange(a as int, b as int).subrange(8, (b - a) as int) =~= v@.subrange(
            a + 8,
            b as int,
        ));
        a = a + 8;
    }
    (a, b)
}

/// A page and the same page with a trailing slash, or written in the
/// `file:///` form, compare as the same page.
pub proof fn a_trailing_slash_or_file_form_is_the_same_page(s: Seq<char>)
    ensures
        page_key(s.push('/')) == page_key(s),
        s.len() > 0 && s.last() != '/' ==> page_key("file:///"@ + s) == page_key(s),
{
    assert(s.push('/').drop_last() =~= s);
    if s.len() > 0 && s.last() != '/' {
        let f = "file:///"@ + s;
        assert(f.last() == s.last());
        assert(trim_end_slashes(f) == f);
        assert(trim_end_slashes(s) == s);
        reveal_strlit("file:///");
        assert(has_prefix(f, "file:///"@)) by {
            assert(f.subrange(0, 8) =~= "file:///"@);
        }
        assert(f.subrange(8, f.len() as int) =~= s);
    }
}

/// Whether a live URL is still the bound page, ignoring the `file:///` form,
/// a trailing slash, backslashes and ASCII case, so a portal does not claim
/// to have navigated away the instant it finishes loading.
pub fn same_page(locator: &str, url: &str) -> (r: bool)
    ensures
        r == (page_key(locator@) == page_key(url@)),
{
    let pat = chars_of("file:///");
    let a = chars_of(locator);
    let b = chars_of(url);
    let (a0, a1) = page_span(&a, &pat);
    let (b0, b1) = page_span(&b, &pat);
    let ghost ka = page_key(locator@);
    let ghost kb = page_key(url@);
    assert(ka.len() == a1 - a0);
    assert(kb.len() == b1 - b0);
    if a1 - a0 != b1 - b0 {
        return false;
    }
    let mut i: usize = 0;
    while i < a1 - a0
        invariant
            a0 <= a1 <= a@.len(),
            b0 <= b1 <= b@.len(),
            a1 - a0 == b1 - b0,
            i <= a1 - a0,
            ka == page_key(locator@),
            kb == page_key(url@),
            ka == a@.subrange(a0 as int, a1 as int).map_values(|c: char| page_char(c)),
            kb == b@.subrange(b0 as int, b1 as int).map_values(|c: char| page_char(c)),
            forall|j: int| 0 <= j < i ==> ka[j] == kb[j],
        decreases a1 - a0 - i,
    {
        let ca = a[a0 + i];
        let cb = b[b0 + i];
        let na = to_ascii_lower(if ca == '\\' { '/' } else { ca });
        let nb = to_ascii_lower(if cb == '\\' { '/' } else { cb });
        assert(ka[i as int] == na);
        assert(kb[i as int] == nb);
        if na != nb {
            assert(ka[i as int] != kb[i as int]);
            return false;
        }
        i = i + 1;
    }
    assert(ka =~= kb);
    true
}

} // verus!

verus! {

/// A path separator: `/`, or `\` on Windows paths.
pub open spec fn is_sep(c: char) -> bool {
    c == '/' || c == '\\'
}

/// Whether `"://"` starts at index `i` of `s`.
pub open spec fn scheme_mark_at(s: Seq<char>, i: int) -> bool {
    0 <= i && i + 3 <= s.len() && s[i] == ':' && s[i + 1] == '/' && s[i + 2] == '/'
}

/// Whether `s` holds `"://"` somewhere: a remote locator.
pub open spec fn is_remote(s: Seq<char>) -> bool {
    exists|i: int| #[trigger] scheme_mark_at(s, i)
}

/// Whether `s` is an absolute path: rooted at a separator, or at a drive
/// letter followed by a separator.
pub open spec fn is_absolute(s: Seq<char>) -> bool {
    (s.len() > 0 && is_sep(s[0])) || (s.len() >= 3 && (('a' <= s[0] && s[0] <= 'z') || ('A'
        <= s[0] && s[0] <= 'Z')) && s[1] == ':' && is_sep(s[2]))
}

/// Index of the last separator in `s[..end]`, or -1.
pub open spec fn last_sep(s: Seq<char>, end: int) -> int
    decreases end,
{
    if end <= 0 {
        -1
    } else if is_sep(s[end - 1]) {
        end - 1
    } else {
        last_sep(s, end - 1)
    }
}

/// The folder holding the file `s`: everything before its last separator;
/// the root itself when that separator is the first character; an empty path
/// for a bare file name; nothing for an empty path or the root.
pub open spec fn parent_dir(s: Seq<char>) -> Option<Seq<char>> {
    let k = last_sep(s, s.len() as int);
    if s.len() == 0 {
        None
    } else if k < 0 {
        Some(Seq::empty())
    } else if k == 0 {
        if s.len() == 1 {
            None
        } else {
            Some(s.subrange(0, 1))
        }
    } else {
        Some(s.subrange(0, k))
    }
}

/// `p` under the folder `base`: `p` itself when it is absolute or `base` is
/// empty, else the two joined by one separator.
pub open spec fn join_path(base: Seq<char>, p: Seq<char>) -> Seq<char> {
    if is_absolute(p) || base.len() == 0 {
        p
    } else if is_sep(base.last()) {
        base + p
    } else {
        base.push('/') + p
    }
}

/// Joining puts a relative path under its folder with exactly one
/// separator between them (none added when the folder already ends in
/// one); an absolute path, or a path joined to no folder, stands as it is.
pub proof fn joining_keeps_the_folder_and_the_path(base: Seq<char>, p: Seq<char>)
    ensures
        is_absolute(p) || base.len() == 0 ==> join_path(base, p) == p,
        !is_absolute(p) && base.len() > 0 ==> ({
            let j = join_path(base, p);
            let k = if is_sep(base.last()) {
                base.len() as int
            } else {
                base.len() + 1int
            };
            &&& j.take(base.len() as int) == base
            &&& j.len() == k + p.len()
            &&& j.skip(k) == p
            &&& is_sep(j[k - 1])
        }),
{
    if !is_absolute(p) && base.len() > 0 {
        let j = join_path(base, p);
        if is_sep(base.last()) {
            assert(j.take(base.len() as int) =~= base);
            assert(j.skip(base.len() as int) =~= p);
            assert(j[base.len() - 1] == base.last());
        } else {
            assert(j.take(base.len() as int) =~= base);
            assert(j.skip(base.len() + 1int) =~= p);
            assert(j[base.len() as int] == '/');
        }
    }
}

/// Workbook-relative first, absolute as fallback. Remote and absolute
/// locators pass through untouched.
pub open spec fn resolve_spec(workbook: Option<Seq<char>>, locator: Seq<char>) -> Seq<char> {
    if is_remote(locator) || is_absolute(locator) {
        locator
    } else {
        match workbook {
            Some(w) => match parent_dir(w) {
                Some(d) => join_path(d, locator),
                None => locator,
            },
            None => locator,
        }
    }
}

/// The first index at or after `i` whose character is not a separator (the
/// length when there is none).
pub open spec fn skip_seps(s: Seq<char>, i: int) -> int
    decreases s.len() - i,
{
    if i < 0 || i >= s.len() {
        s.len() as int
    } else if is_sep(s[i]) {
        skip_seps(s, i + 1)
    } else {
        i
    }
}

/// Whether `path` lies in the folder `d`: it starts with `d`, and `d` ends in
/// a separator or one follows it in `path`.
pub open spec fn under_folder(path: Seq<char>, d: Seq<char>) -> bool {
    d.len() > 0 && has_prefix(path, d) && (is_sep(d.last()) || (path.len() > d.len() && is_sep(
        path[d.len() as int],
    )))
}

/// The inverse: a path under the workbook's folder is stored relative to it,
/// with every separator between the folder and the rest left out; any other
/// path as it stands.
pub open spec fn locator_spec(workbook: Option<Seq<char>>, path: Seq<char>) -> Seq<char> {
    match workbook {
        Some(w) => match parent_dir(w) {
            Some(d) => if under_folder(path, d) {
                path.subrange(skip_seps(path, d.len() as int), path.len() as int)
            } else {
                path
            },
            None => path,
        },
        None => path,
    }
}

fn is_sep_char(c: char) -> (r: bool)
    ensures
        r == is_sep(c),
{
    c == '/' || c == '\\'
}

pub fn has_scheme_mark(v: &[char]) -> (r: bool)
    ensures
        r == is_remote(v@),
{
    if v.len() < 3 {
        assert forall|j: int| !#[trigger] scheme_mark_at(v@, j) by {}
        return false;
    }
    let mut i: usize = 0;
    while i <= v.len() - 3
        invariant
            v@.len() == v.len(),
            v.len() >= 3,
            forall|j: int| 0 <= j < i ==> !#[trigger] scheme_mark_at(v@, j),
        decreases v.len() - i,
    {
        if v[i] == ':' && v[i + 1] == '/' && v[i + 2] == '/' {
            assert(scheme_mark_at(v@, i as int));
            return true;
        }
        i = i + 1;
    }
    assert forall|j: int| !#[trigger] scheme_mark_at(v@, j) by {
        if 0 <= j && j + 3 <= v@.len() {
            assert(j < i);
        }
    }
    false
}

pub fn is_absolute_chars(v: &[char]) -> (r: bool)
    ensures
        r == is_absolute(v@),
{
    (v.len() > 0 && is_sep_char(v[0])) || (v.len() >= 3 && (('a' <= v[0] && v[0] <= 'z') || (
    'A' <= v[0] && v[0] <= 'Z')) && v[1] == ':' && is_sep_char(v[2]))
}

/// The span `[0, end)` of `v` that `parent_dir` keeps.
fn parent_span(v: &[char]) -> (r: Option<usize>)
    ensures
        match r {
            Some(end) => end <= v@.len() && parent_dir(v@) == Some(v@.subrange(0, end as int)),
            None => parent_dir(v@) is None,
        },
{
    if v.len() == 0 {
        return None;
    }
    let mut k = v.len();
    while k > 0 && !is_sep_char(v[k - 1])
        invariant
            k <= v@.len(),
            last_sep(v@, v@.len() as int) == last_sep(v@, k as int),
        decreases k,
    {
        k = k - 1;
    }
    if k == 0 {
        assert(v@.subrange(0, 0) =~= Seq::<char>::empty());
        Some(0)
    } else if k == 1 {
        if v.len() == 1 {
            None
        } else {
            Some(1)
        }
    } else {
        Some(k - 1)
    }
}

/// Where a portal's locator points: the workbook's folder joined with a
/// relative path, anything else as it stands.
pub fn resolve_web_source(workbook: Option<&str>, locator: &str) -> (s: String)
    ensures
        s@ == resolve_spec(
            match workbook {
                Some(w) => Some(w@),
                None => None,
            },
            locator@,
        ),
{
    let loc = chars_of(locator);
    if has_scheme_mark(&loc) || is_absolute_chars(&loc) {
        return string_from_chars(&loc);
    }
    match workbook {
        None => string_from_chars(&loc),
        Some(w) => {
            let wv = chars_of(w);
            match parent_span(&wv) {
                None => string_from_chars(&loc),
                Some(end) => {
                    if end == 0 {
                        return string_from_chars(&loc);
                    }
                    let mut out = Vec::new();
                    let mut i: usize = 0;
                    while i < end
                        invariant
                            i <= end <= wv@.len(),
                            out@ == wv@.subrange(0, i as int),
                        decreases end - i,
                    {
                        out.push(wv[i]);
                        assert(wv@.subrange(0, i as int).push(wv@[i as int]) =~= wv@.subrange(
                            0,
                            i + 1,
                        ));
                        i = i + 1;
                    }
                    if !is_sep_char(wv[end - 1]) {
                        out.push('/');
                    }
                    let mut s = string_from_chars(&out);
                    push_chars(&mut s, &loc);
                    s
                },
            }
        },
    }
}

/// How a chosen file is stored as a locator: relative to the workbook's
/// folder when it lives under it, else as it stands.
pub fn web_source_locator(workbook: Option<&str>, path: &str) -> (s: String)
    ensures
        s@ == locator_spec(
            match workbook {
                Some(w) => Some(w@),
                None => None,
            },
            path@,
        ),
{
    let p = chars_of(path);
    match workbook {
        None => string_from_chars(&p),
        Some(w) => {
            let wv = chars_of(w);
            match parent_span(&wv) {
                None => string_from_chars(&p),
                Some(end) => {
                    if end == 0 || end > p.len() {
                        return string_from_chars(&p);
                    }
                    let d = sub_chars(&wv, 0, end);
                    if !starts_with_at(&p, 0, p.len(), &d) {
                        assert(p@.subrange(0, p@.len() as int) =~= p@);
                        return string_from_chars(&p);
                    }
                    assert(p@.subrange(0, p@.len() as int) =~= p@);
                    if is_sep_char(d[end - 1]) || (p.len() > end && is_sep_char(p[end])) {
                        let mut k = end;
                        while k < p.len() && is_sep_char(p[k])
                            invariant
                                end <= k <= p@.len(),
                                skip_seps(p@, end as int) == skip_seps(p@, k as int),
                            decreases p.len() - k,
                        {
                            k = k + 1;
                        }
                        let rest = sub_chars(&p, k, p.len());
                        string_from_chars(&rest)
                    } else {
                        string_from_chars(&p)
                    }
                },
            }
        },
    }
}

} // verus!


verus! {

/// `join_path` on character vectors.
pub fn join_path_chars(base: &[char], p: &[char]) -> (r: String)
    ensures
        r@ == join_path(base@, p@),
{
    if is_absolute_chars(p) || base.len() == 0 {
        return string_from_chars(p);
    }
    let mut s = string_from_chars(base);
    if !is_sep_char(base[base.len() - 1]) {
        push_char(&mut s, '/');
    }
    push_chars(&mut s, p);
    s
}

} // verus!

verus! {

/// The host used where no browser runtime exists: it never renders.
#[derive(Debug, Clone, Copy)]
pub struct NullHost;

impl NullHost {
    /// A null host has no runtime, so every portal reads "no runtime".
    pub fn available(&self) -> (r: bool)
        ensures
            !r,
    {
        false
    }
}

/// Two pixels, premultiplied RGBA, are the same colour.
pub open spec fn same_pixel(a: [u8; 4], b: [u8; 4]) -> bool {
    a[0] == b[0] && a[1] == b[1] && a[2] == b[2] && a[3] == b[3]
}

/// Opaque black or opaque white: what an empty compositor frame clears to.
pub open spec fn is_clear_colour(p: [u8; 4]) -> bool {
    same_pixel(p, [0u8, 0u8, 0u8, 255u8]) || same_pixel(p, [255u8, 255u8, 255u8, 255u8])
}

/// Whether a captured frame shows something: not empty, and some pixel is
/// not fully transparent and, when the first pixel is a black or white
/// clear, differs from it. Other solid colours count as content.
pub open spec fn frame_has_content_spec(width: int, height: int, px: Seq<[u8; 4]>) -> bool {
    &&& width != 0 && height != 0 && px.len() > 0
    &&& exists|i: int|
        0 <= i < px.len() && (#[trigger] px[i])[3] != 0 && (!is_clear_colour(px[0])
            || !same_pixel(px[i], px[0]))
}

fn same_pixel_exec(a: &[u8; 4], b: &[u8; 4]) -> (r: bool)
    ensures
        r == same_pixel(*a, *b),
{
    a[0] == b[0] && a[1] == b[1] && a[2] == b[2] && a[3] == b[3]
}

/// See `frame_has_content_spec`: `pixels` are the frame's RGBA pixels, row
/// by row.
pub fn web_frame_has_content(width: usize, height: usize, pixels: &[[u8; 4]]) -> (r: bool)
    ensures
        r == frame_has_content_spec(width as int, height as int, pixels@),
{
    if width == 0 || height == 0 || pixels.len() == 0 {
        return false;
    }
    let first = pixels[0];
    let black: [u8; 4] = [0, 0, 0, 255];
    let white: [u8; 4] = [255, 255, 255, 255];
    let clear = same_pixel_exec(&first, &black) || same_pixel_exec(&first, &white);
    assert(clear == is_clear_colour(pixels@[0]));
    let mut i: usize = 0;
    while i < pixels.len()
        invariant
            i <= pixels@.len(),
            pixels@.len() > 0,
            width != 0,
            height != 0,
            first == pixels@[0],
            clear == is_clear_colour(pixels@[0]),
            forall|j: int|
                0 <= j < i ==> !((#[trigger] pixels@[j])[3] != 0 && (!clear || !same_pixel(
                    pixels@[j],
                    first,
                ))),
        decreases pixels.len() - i,
    {
        let p = pixels[i];
        if p[3] != 0 && (!clear || !same_pixel_exec(&p, &first)) {
            assert(p == pixels@[i as int]);
            assert(pixels@[i as int][3] != 0 && (!is_clear_colour(pixels@[0]) || !same_pixel(
                pixels@[i as int],
                pixels@[0],
            )));
            return true;
        }
        i = i + 1;
    }
    false
}

/// A local source's watch state: which binding it belongs to, whether a probe
/// is out, and what the last probe found.
#[derive(Debug, Clone, Copy)]
pub struct SourceWatch {
    /// Bumped on every rebind; a probe from an older binding is dropped.
    pub generation: u64,
    pub poll_inflight: bool,
    /// `None` until the first probe answers.
    pub source_exists: Option<bool>,
    /// Last modification time seen, as seconds and nanoseconds since the
    /// epoch.
    pub source_mtime: Option<(u64, u32)>,
    /// The source changed while the portal held a slot: reload it.
    pub reload_pending: bool,
}

fn same_mtime(a: Option<(u64, u32)>, b: Option<(u64, u32)>) -> (r: bool)
    ensures
        r == (a == b),
{
    match (a, b) {
        (Some((s1, n1)), Some((s2, n2))) => s1 == s2 && n1 == n2,
        (None, None) => true,
        _ => false,
    }
}

impl SourceWatch {
    /// Apply a finished probe. A probe of an older binding is dropped. A
    /// modification time that differs from one already seen means the source
    /// changed: the poster is stale and the page reloads. Returns whether it
    /// changed.
    pub fn apply_poll(
        &mut self,
        generation: u64,
        exists: bool,
        mtime: Option<(u64, u32)>,
    ) -> (changed: bool)
        ensures
            generation != old(self).generation ==> !changed && *final(self) == *old(self),
            generation == old(self).generation ==> changed == (old(self).source_mtime is Some
                && old(self).source_mtime != mtime) && *final(self) == (SourceWatch {
                generation: old(self).generation,
                poll_inflight: false,
                source_exists: Some(exists),
                source_mtime: mtime,
                reload_pending: old(self).reload_pending || changed,
            }),
    {
        if generation != self.generation {
            return false;
        }
        self.poll_inflight = false;
        self.source_exists = Some(exists);
        let changed = self.source_mtime.is_some() && !same_mtime(self.source_mtime, mtime);
        self.source_mtime = mtime;
        if changed {
            self.reload_pending = true;
        }
        changed
    }
}

} // verus!

verus! {

/// How a portal's bound source classified.
#[derive(Debug, Clone)]
pub enum SourceClass {
    /// No source bound.
    Unbound,
    /// Empty, or a path that is neither an HTML file nor a known folder.
    Unusable,
    /// Refused for the stated reason.
    Refused(String),
    /// A remote page, with its `scheme://host` origin when it has one.
    Remote { origin: Option<String> },
    /// A local page; `exists` is the last existence probe's answer, if any.
    Local { exists: Option<bool> },
}

/// What the frame loop knows about a portal when it decides its state. The
/// size questions are asked in screen pixels by the caller: whether the
/// portal is tall enough to be worth a webview, and whether it is painted
/// but below the live gate.
#[derive(Debug, Clone)]
pub struct WebFacts {
    pub locator: String,
    pub class: SourceClass,
    /// Whether the browser runtime is present.
    pub host_ok: bool,
    /// What the host reported failing to load, if anything.
    pub load_error: Option<String>,
    /// Whether the portal may run a live page at all.
    pub interactive_allowed: bool,
    /// When the last poster was captured, if there is one.
    pub poster_at: Option<std::time::Instant>,
    pub on_screen: bool,
    pub focused: bool,
    /// Holding a pool slot now.
    pub live: bool,
    /// Tall enough on screen to be eligible for a webview.
    pub lod_eligible: bool,
    /// Painted on screen, but shorter than the live gate.
    pub too_small: bool,
}

/// The poster state when a poster exists, else `fallback`.
pub open spec fn poster_or(poster_at: Option<std::time::Instant>, fallback: WebState) -> WebState {
    match poster_at {
        Some(t) => WebState::Poster { captured: t },
        None => fallback,
    }
}

/// A portal's state, and whether it competes for a webview, given the facts
/// and whether its origin (when remote) is permitted. The checks run in a
/// fixed order: the source, consent or the local probe, the runtime, a load
/// error, the portal's own permission, then size and the pool.
pub open spec fn web_state_spec(f: WebFacts, allowed: bool) -> (WebState, bool) {
    match f.class {
        SourceClass::Unbound => (WebState::Unbound, false),
        SourceClass::Unusable => (WebState::Missing { locator: f.locator }, false),
        SourceClass::Refused(reason) => (WebState::Refused { reason }, false),
        _ => {
            if (f.class matches SourceClass::Remote { origin: Some(o) }) && !allowed {
                (WebState::Blocked { origin: f.class->origin->0 }, false)
            } else if f.class matches SourceClass::Local { exists: Some(false) } {
                (WebState::Missing { locator: f.locator }, false)
            } else if !f.host_ok {
                (WebState::NoRuntime, false)
            } else if f.load_error is Some {
                (WebState::Missing { locator: f.load_error->0 }, true)
            } else if !f.interactive_allowed {
                (poster_or(f.poster_at, WebState::Loading), false)
            } else if !f.on_screen || (!f.focused && !f.live && !f.lod_eligible) {
                (
                    if f.too_small && f.on_screen {
                        WebState::TooSmall
                    } else {
                        poster_or(f.poster_at, WebState::Unknown)
                    },
                    true,
                )
            } else if f.live && f.poster_at is Some {
                (WebState::Live, true)
            } else if f.live {
                (WebState::Loading, true)
            } else {
                (WebState::Budgeted, true)
            }
        },
    }
}

fn poster_or_exec(poster_at: Option<std::time::Instant>, fallback: WebState) -> (s: WebState)
    ensures
        s == poster_or(poster_at, fallback),
{
    match poster_at {
        Some(t) => WebState::Poster { captured: t },
        None => fallback,
    }
}

/// What state a portal is in right now, and whether it is worth a webview.
/// A remote origin is checked against `consent`.
pub fn web_state_for(f: WebFacts, consent: &crate::web_consent::WebConsent) -> (r: (
    WebState,
    bool,
))
    requires
        consent.wf(),
    ensures
        r == web_state_spec(
            f,
            match f.class {
                SourceClass::Remote { origin: Some(o) } => crate::web_consent::allows(
                    consent@,
                    o@,
                ),
                _ => true,
            },
        ),
{
    let ghost g = f;
    let WebFacts {
        locator,
        class,
        host_ok,
        load_error,
        interactive_allowed,
        poster_at,
        on_screen,
        focused,
        live,
        lod_eligible,
        too_small,
    } = f;
    match class {
        SourceClass::Unbound => {
            return (WebState::Unbound, false);
        },
        SourceClass::Unusable => {
            return (WebState::Missing { locator }, false);
        },
        SourceClass::Refused(reason) => {
            return (WebState::Refused { reason }, false);
        },
        SourceClass::Remote { origin } => {
            if let Some(o) = origin {
                if !consent.has_consent(o.as_str()) {
                    return (WebState::Blocked { origin: o }, false);
                }
            }
        },
        SourceClass::Local { exists } => {
            if let Some(false) = exists {
                return (WebState::Missing { locator }, false);
            }
        },
    }
    if !host_ok {
        return (WebState::NoRuntime, false);
    }
    if let Some(err) = load_error {
        return (WebState::Missing { locator: err }, true);
    }
    if !interactive_allowed {
        return (poster_or_exec(poster_at, WebState::Loading), false);
    }
    if !on_screen || (!focused && !live && !lod_eligible) {
        let state = if too_small && on_screen {
            WebState::TooSmall
        } else {
            poster_or_exec(poster_at, WebState::Unknown)
        };
        return (state, true);
    }
    let state = if live && poster_at.is_some() {
        WebState::Live
    } else if live {
        WebState::Loading
    } else {
        WebState::Budgeted
    };
    (state, true)
}

/// Whether a portal's source lets the later checks run: a page, remote with
/// its origin permitted (or no origin), or local and not known to be gone.
pub open spec fn source_ready(class: SourceClass, allowed: bool) -> bool {
    match class {
        SourceClass::Remote { origin } => origin is Some ==> allowed,
        SourceClass::Local { exists } => exists != Some(false),
        _ => false,
    }
}

/// The state a portal's facts call for, case by case, in the order the
/// checks run:
/// - no source, an unusable one, a refused one, a blocked origin or a local
///   file known to be gone each say so and never compete for a webview;
/// - with a ready source, a missing runtime says so; a load error shows what
///   failed to load and still competes;
/// - a portal that may not run live pages shows its last poster, with that
///   capture time, or reads as loading, and never competes;
/// - an allowed portal always competes. Off screen, or out of the running
///   for a slot, it reads as too small when it is on screen but shorter than
///   a live page needs, else as its poster or unknown. In the running it is
///   live (loading until a first frame), or budgeted when the pool had no
///   slot.
pub proof fn a_portal_state_follows_its_facts(f: WebFacts, allowed: bool)
    ensures
        f.class is Unbound ==> web_state_spec(f, allowed) == (WebState::Unbound, false),
        f.class is Unusable ==> web_state_spec(f, allowed) == (
            WebState::Missing { locator: f.locator },
            false,
        ),
        f.class is Refused ==> web_state_spec(f, allowed) == (
            WebState::Refused { reason: f.class->0 },
            false,
        ),
        f.class is Remote && f.class->origin is Some && !allowed ==> web_state_spec(f, allowed)
            == (WebState::Blocked { origin: f.class->origin->0 }, false),
        f.class is Local && f.class->exists == Some(false) ==> web_state_spec(f, allowed) == (
            WebState::Missing { locator: f.locator },
            false,
        ),
        source_ready(f.class, allowed) && !f.host_ok ==> web_state_spec(f, allowed) == (
            WebState::NoRuntime,
            false,
        ),
        source_ready(f.class, allowed) && f.host_ok && f.load_error is Some ==> web_state_spec(
            f,
            allowed,
        ) == (WebState::Missing { locator: f.load_error->0 }, true),
        source_ready(f.class, allowed) && f.host_ok && f.load_error is None
            && !f.interactive_allowed && f.poster_at is Some ==> web_state_spec(f, allowed) == (
            WebState::Poster { captured: f.poster_at->0 },
            false,
        ),
        source_ready(f.class, allowed) && f.host_ok && f.load_error is None
            && !f.interactive_allowed && f.poster_at is None ==> web_state_spec(f, allowed) == (
            WebState::Loading,
            false,
        ),
        source_ready(f.class, allowed) && f.host_ok && f.load_error is None
            && f.interactive_allowed ==> web_state_spec(f, allowed).1,
        source_ready(f.class, allowed) && f.host_ok && f.load_error is None
            && f.interactive_allowed && !(f.on_screen && (f.focused || f.live || f.lod_eligible))
            ==> web_state_spec(f, allowed).0 == (if f.too_small && f.on_screen {
            WebState::TooSmall
        } else if f.poster_at is Some {
            WebState::Poster { captured: f.poster_at->0 }
        } else {
            WebState::Unknown
        }),
        source_ready(f.class, allowed) && f.host_ok && f.load_error is None
            && f.interactive_allowed && f.on_screen && (f.focused || f.live || f.lod_eligible)
            ==> web_state_spec(f, allowed).0 == (if !f.live {
            WebState::Budgeted
        } else if f.poster_at is Some {
            WebState::Live
        } else {
            WebState::Loading
        }),
{
}

} // verus!

verus! {

/// What kind of input reached the focused page: the part of an input event
/// that decides whether it counts as interaction. `Move` keeps the bitmask
/// of held buttons (1 left, 2 right, 4 middle).
#[derive(Debug, Clone, Copy, PartialEq, Eq, Structural)]
pub enum PageInputKind {
    Move { buttons: u8 },
    Down,
    Up,
    Wheel,
    Leave,
    Key,
    Text,
}

/// Whether an input is the human working the page (which earns the fast
/// frame rate for a moment): anything but a bare hover or leaving.
pub open spec fn interactive_spec(k: PageInputKind) -> bool {
    match k {
        PageInputKind::Move { buttons } => buttons != 0,
        PageInputKind::Leave => false,
        _ => true,
    }
}

/// Only real work on a page counts as interaction: a hover (a move with no
/// button held) and the pointer leaving are the two inputs that do not;
/// every press, release, wheel turn, key and text input does.
pub proof fn only_hover_and_leave_are_idle(k: PageInputKind)
    ensures
        interactive_spec(k) <==> !(k is Leave || k == (PageInputKind::Move { buttons: 0 })),
{
}

pub fn page_input_is_interactive(k: PageInputKind) -> (r: bool)
    ensures
        r == interactive_spec(k),
{
    match k {
        PageInputKind::Wheel | PageInputKind::Down | PageInputKind::Up | PageInputKind::Key
        | PageInputKind::Text => true,
        PageInputKind::Move { buttons } => buttons != 0,
        PageInputKind::Leave => false,
    }
}

} // verus!

verus! {

/// Storing what resolving gave back returns the locator: a relative locator
/// resolved against a workbook and then stored for that workbook is the same
/// locator again.
pub proof fn a_relative_locator_survives_resolving(
    workbook: Option<Seq<char>>,
    locator: Seq<char>,
)
    requires
        !is_remote(locator),
        !is_absolute(locator),
    ensures
        locator_spec(workbook, resolve_spec(workbook, locator)) == locator,
{
    if let Some(w) = workbook {
        if let Some(d) = parent_dir(w) {
            let p = resolve_spec(workbook, locator);
            if d.len() > 0 {
                if is_sep(d.last()) {
                    assert(p == d + locator);
                    assert(p.subrange(0, d.len() as int) =~= d);
                    if locator.len() > 0 {
                        assert(p[d.len() as int] == locator[0]);
                    }
                    assert(skip_seps(p, d.len() as int) == d.len());
                    assert(p.subrange(d.len() as int, p.len() as int) =~= locator);
                } else {
                    assert(p == d.push('/') + locator);
                    assert(p.subrange(0, d.len() as int) =~= d);
                    assert(p[d.len() as int] == '/');
                    if locator.len() > 0 {
                        assert(p[d.len() as int + 1] == locator[0]);
                    }
                    assert(skip_seps(p, d.len() as int + 1) == d.len() + 1);
                    assert(skip_seps(p, d.len() as int) == d.len() + 1);
                    assert(p.subrange(d.len() as int + 1, p.len() as int) =~= locator);
                }
            }
        }
    }
}

/// A frame that is one black or white clear all over, or fully transparent,
/// is never taken for content: it cannot replace a good poster.
/// What counts as content: an empty frame never does; a frame whose first
/// pixel is an opaque colour other than black or white does; so does one
/// where any visible pixel differs from the first.
pub proof fn a_visible_difference_is_content(width: int, height: int, px: Seq<[u8; 4]>, i: int)
    ensures
        width == 0 || height == 0 || px.len() == 0 ==> !frame_has_content_spec(width, height, px),
        width != 0 && height != 0 && px.len() > 0 && px[0][3] != 0 && !is_clear_colour(px[0])
            ==> frame_has_content_spec(width, height, px),
        width != 0 && height != 0 && 0 <= i < px.len() && px[i][3] != 0 && !same_pixel(
            px[i],
            px[0],
        ) ==> frame_has_content_spec(width, height, px),
{
    if width != 0 && height != 0 && px.len() > 0 && px[0][3] != 0 && !is_clear_colour(px[0]) {
        assert(px[0][3] != 0);
    }
    if width != 0 && height != 0 && 0 <= i < px.len() && px[i][3] != 0 && !same_pixel(px[i], px[0]) {
        assert(px[i][3] != 0);
    }
}

pub proof fn uniform_clear_frames_are_blank(width: int, height: int, px: Seq<[u8; 4]>)
    requires
        px.len() > 0,
        forall|i: int| 0 <= i < px.len() ==> px[i][3] == 0 || (is_clear_colour(px[0])
            && same_pixel(#[trigger] px[i], px[0])),
    ensures
        !frame_has_content_spec(width, height, px),
{
}

} // verus!

verus! {

/// `s` with every separator read as `/` and each run of separators as one:
/// two paths with the same collapsed form name the same file.
pub open spec fn collapse_seps(s: Seq<char>) -> Seq<char>
    decreases s.len(),
{
    if s.len() == 0 {
        s
    } else {
        let r = collapse_seps(s.drop_last());
        if is_sep(s.last()) {
            if r.len() > 0 && r.last() == '/' {
                r
            } else {
                r.push('/')
            }
        } else {
            r.push(s.last())
        }
    }
}

proof fn collapse_congruent(a: Seq<char>, b: Seq<char>, c: Seq<char>)
    requires
        collapse_seps(a) == collapse_seps(b),
    ensures
        collapse_seps(a + c) == collapse_seps(b + c),
    decreases c.len(),
{
    if c.len() == 0 {
        assert(a + c =~= a);
        assert(b + c =~= b);
    } else {
        collapse_congruent(a, b, c.drop_last());
        assert((a + c).drop_last() =~= a + c.drop_last());
        assert((b + c).drop_last() =~= b + c.drop_last());
        assert((a + c).last() == c.last());
        assert((b + c).last() == c.last());
    }
}

proof fn collapse_run(a: Seq<char>, seps: Seq<char>)
    requires
        seps.len() > 0,
        forall|i: int| 0 <= i < seps.len() ==> is_sep(#[trigger] seps[i]),
    ensures
        collapse_seps(a + seps) == (if collapse_seps(a).len() > 0 && collapse_seps(a).last()
            == '/' {
            collapse_seps(a)
        } else {
            collapse_seps(a).push('/')
        }),
    decreases seps.len(),
{
    assert((a + seps).drop_last() =~= a + seps.drop_last());
    assert((a + seps).last() == seps[seps.len() - 1]);
    if seps.len() > 1 {
        collapse_run(a, seps.drop_last());
    } else {
        assert(a + seps.drop_last() =~= a);
    }
}

proof fn skip_seps_facts(s: Seq<char>, i: int)
    requires
        0 <= i <= s.len(),
    ensures
        i <= skip_seps(s, i) <= s.len(),
        forall|j: int| i <= j < skip_seps(s, i) ==> is_sep(#[trigger] s[j]),
        skip_seps(s, i) < s.len() ==> !is_sep(s[skip_seps(s, i)]),
    decreases s.len() - i,
{
    if i < s.len() && is_sep(s[i]) {
        skip_seps_facts(s, i + 1);
    }
}

/// Storing a path of the workbook's folder and resolving it again names the
/// same file: the two agree once separators are read alike and runs of them
/// count as one. This holds for every path under the folder whose stored
/// rest reads as a relative locator; a rest that is itself absolute (such as
/// `C:/x` under the folder) or holds `://` is resolved as it stands.
pub proof fn a_path_inside_the_folder_resolves_back(workbook: Seq<char>, path: Seq<char>)
    requires
        parent_dir(workbook) is Some,
        under_folder(path, parent_dir(workbook)->0),
        !is_remote(locator_spec(Some(workbook), path)),
        !is_absolute(locator_spec(Some(workbook), path)),
    ensures
        collapse_seps(resolve_spec(Some(workbook), locator_spec(Some(workbook), path)))
            == collapse_seps(path),
{
    let d = parent_dir(workbook)->0;
    let n = d.len() as int;
    skip_seps_facts(path, n);
    let k = skip_seps(path, n);
    let rest = locator_spec(Some(workbook), path);
    let seps = path.subrange(n, k);
    assert(rest == path.subrange(k, path.len() as int));
    assert(path.subrange(0, n) =~= d);
    assert(path =~= d + seps + rest);
    assert forall|i: int| 0 <= i < seps.len() implies is_sep(#[trigger] seps[i]) by {
        assert(seps[i] == path[n + i]);
    }
    assert(collapse_seps(d) == collapse_seps(d.drop_last()).push(d.last()) || is_sep(d.last()));
    if is_sep(d.last()) {
        assert(resolve_spec(Some(workbook), rest) == d + rest);
        assert(collapse_seps(d).len() > 0 && collapse_seps(d).last() == '/');
        if seps.len() > 0 {
            collapse_run(d, seps);
        } else {
            assert(d + seps =~= d);
        }
        collapse_congruent(d + seps, d, rest);
    } else {
        assert(resolve_spec(Some(workbook), rest) == d.push('/') + rest);
        assert(seps.len() > 0) by {
            assert(is_sep(path[n]));
        }
        collapse_run(d, seps);
        assert(collapse_seps(d).last() == d.last());
        let one = seq!['/'];
        collapse_run(d, one);
        assert(d + one =~= d.push('/'));
        collapse_congruent(d + seps, d.push('/'), rest);
    }
}

} // verus!

verus! {

/// One frame of the pointer over a focused page, as the page's routing
/// reads it. Whether the pointer is over the page is measured by the caller
/// in screen pixels.
#[derive(Debug, Clone, Copy, PartialEq, Eq, Structural)]
pub struct PointerFrame {
    pub inside: bool,
    pub primary_pressed: bool,
    pub primary_released: bool,
    pub middle_pressed: bool,
    pub middle_released: bool,
    /// The wheel moved vertically, or horizontally, this frame.
    pub wheel_y: bool,
    pub wheel_x: bool,
    /// The command modifier is held: the wheel zooms the board instead.
    pub command: bool,
}

/// A pointer event for the page, without its position (the caller maps the
/// pointer into page pixels).
#[derive(Debug, Clone, Copy, PartialEq, Eq, Structural)]
pub enum PageEvent {
    /// The pointer moved, with the held buttons (1 left, 4 middle).
    Move { buttons: u8 },
    /// Button pressed: 0 left, 2 middle.
    Down { button: u8 },
    Up { button: u8 },
    Wheel { horizontal: bool },
}

/// What the frame's pointer does to the focused page.
#[derive(Debug, Clone, Copy, PartialEq, Eq, Structural)]
pub enum PointerRoute {
    /// A click outside the page: focus leaves the page.
    Blur,
    /// The pointer left the page: it is told, and holds no buttons.
    Leave,
    /// Outside, and nothing to tell.
    Elsewhere,
    /// Over the page, or dragging from it: the events go to the page.
    ToPage,
}

/// Where the pointer stood over the focused page last frame: over it, and
/// which buttons a drag that started in it holds.
#[derive(Debug, Clone, Copy, PartialEq, Eq, Structural)]
pub struct PagePointer {
    pub inside: bool,
    pub buttons: u8,
}

/// The held buttons after the frame's presses and releases: left (bit 1)
/// first, then middle (bit 4), a press setting the bit and a release clearing
/// it.
pub open spec fn buttons_after(down: u8, f: PointerFrame) -> u8 {
    let a = if f.primary_pressed {
        down | 1u8
    } else {
        down
    };
    let b = if f.primary_released {
        a & 0xFEu8
    } else {
        a
    };
    let c = if f.middle_pressed {
        b | 4u8
    } else {
        b
    };
    if f.middle_released {
        c & 0xFBu8
    } else {
        c
    }
}

/// The page's events for a frame, in order: the move with the held buttons,
/// the left button's press and release, the middle button's, then the wheel
/// (vertical first) unless the command modifier is held.
pub open spec fn page_events_spec(down: u8, f: PointerFrame) -> Seq<PageEvent> {
    seq![PageEvent::Move { buttons: buttons_after(down, f) }]
        + button_events(f.primary_pressed, f.primary_released, 0)
        + button_events(f.middle_pressed, f.middle_released, 2)
        + wheel_events(f)
}

/// A button's press, then its release, as the frame saw them.
pub open spec fn button_events(pressed: bool, released: bool, code: u8) -> Seq<PageEvent> {
    (if pressed {
        seq![PageEvent::Down { button: code }]
    } else {
        Seq::empty()
    }) + (if released {
        seq![PageEvent::Up { button: code }]
    } else {
        Seq::empty()
    })
}

/// The wheel's events, vertical first; none while the command modifier is
/// held.
pub open spec fn wheel_events(f: PointerFrame) -> Seq<PageEvent> {
    if f.command {
        Seq::empty()
    } else {
        (if f.wheel_y {
            seq![PageEvent::Wheel { horizontal: false }]
        } else {
            Seq::empty()
        }) + (if f.wheel_x {
            seq![PageEvent::Wheel { horizontal: true }]
        } else {
            Seq::empty()
        })
    }
}

/// The route, the new pointer state and the page's events for a frame.
/// Outside the page with no drag in progress, a left click gives up focus
/// and a pointer that was inside is reported gone; otherwise the frame's
/// events go to the page.
pub open spec fn pointer_step_spec(p: PagePointer, f: PointerFrame) -> (
    PointerRoute,
    PagePointer,
    Seq<PageEvent>,
) {
    if !f.inside && p.buttons == 0 {
        if f.primary_pressed {
            (PointerRoute::Blur, p, Seq::empty())
        } else if p.inside {
            (PointerRoute::Leave, PagePointer { inside: false, buttons: 0 }, Seq::empty())
        } else {
            (PointerRoute::Elsewhere, p, Seq::empty())
        }
    } else {
        (
            PointerRoute::ToPage,
            PagePointer { inside: true, buttons: buttons_after(p.buttons, f) },
            page_events_spec(p.buttons, f),
        )
    }
}

/// A press sets its button's bit and a release clears it (a release after a
/// press in the same frame wins); a button neither pressed nor released keeps
/// its bit, and every other bit is left alone.
pub proof fn a_release_clears_exactly_its_button(down: u8, f: PointerFrame)
    ensures
        f.primary_released ==> buttons_after(down, f) & 1 == 0,
        f.middle_released ==> buttons_after(down, f) & 4 == 0,
        f.primary_pressed && !f.primary_released ==> buttons_after(down, f) & 1 == 1,
        f.middle_pressed && !f.middle_released ==> buttons_after(down, f) & 4 == 4,
        !f.primary_pressed && !f.primary_released ==> buttons_after(down, f) & 1 == down & 1,
        !f.middle_pressed && !f.middle_released ==> buttons_after(down, f) & 4 == down & 4,
        buttons_after(down, f) & 0xFA == down & 0xFA,
{
    let pp = f.primary_pressed;
    let pr = f.primary_released;
    let mp = f.middle_pressed;
    let mr = f.middle_released;
    let a: u8 = if pp {
        down | 1u8
    } else {
        down
    };
    let b: u8 = if pr {
        a & 0xFEu8
    } else {
        a
    };
    let c: u8 = if mp {
        b | 4u8
    } else {
        b
    };
    let d: u8 = if mr {
        c & 0xFBu8
    } else {
        c
    };
    assert(d == buttons_after(down, f));
    assert((pr ==> d & 1 == 0) && (mr ==> d & 4 == 0) && (pp && !pr ==> d & 1 == 1) && (mp && !mr
        ==> d & 4 == 4) && (!pp && !pr ==> d & 1 == down & 1) && (!mp && !mr ==> d & 4 == down & 4)
        && d & 0xFA == down & 0xFA) by (bit_vector)
        requires
            a == (if pp {
                down | 1u8
            } else {
                down
            }),
            b == (if pr {
                a & 0xFEu8
            } else {
                a
            }),
            c == (if mp {
                b | 4u8
            } else {
                b
            }),
            d == (if mr {
                c & 0xFBu8
            } else {
                c
            }),
    ;
}

/// A pointer holds only the two buttons it tracks, left (1) and middle (4).
pub open spec fn only_tracked_buttons(p: PagePointer) -> bool {
    p.buttons & 0xFA == 0
}

/// Routing across frames:
/// - a new pointer holds nothing, and every step keeps it holding only the
///   tracked buttons;
/// - while a button is held, every frame goes to the page, wherever the
///   pointer is;
/// - with nothing held, a frame outside the page gives up focus on a left
///   click, tells the page once that the pointer left, and is otherwise
///   nobody's;
/// - releasing every held button (and pressing none) leaves the pointer
///   holding none, so the next frame outside the page is no longer the
///   page's.
pub proof fn a_drag_belongs_to_the_page_until_released(p: PagePointer, f: PointerFrame, g: PointerFrame)
    ensures
        only_tracked_buttons(p) ==> only_tracked_buttons(pointer_step_spec(p, f).1),
        p.buttons != 0 ==> pointer_step_spec(p, f).0 == PointerRoute::ToPage,
        f.inside ==> pointer_step_spec(p, f).0 == PointerRoute::ToPage,
        !f.inside && p.buttons == 0 && f.primary_pressed ==> pointer_step_spec(p, f).0
            == PointerRoute::Blur && pointer_step_spec(p, f).2.len() == 0,
        !f.inside && p.buttons == 0 && !f.primary_pressed && p.inside ==> pointer_step_spec(p, f)
            == (PointerRoute::Leave, PagePointer { inside: false, buttons: 0 }, Seq::<
            PageEvent,
        >::empty()),
        !f.inside && p.buttons == 0 && !f.primary_pressed && !p.inside ==> pointer_step_spec(
            p,
            f,
        ).0 == PointerRoute::Elsewhere,
        only_tracked_buttons(p) && !f.primary_pressed && !f.middle_pressed && (p.buttons & 1 == 0
            || f.primary_released) && (p.buttons & 4 == 0 || f.middle_released) ==> ({
            let q = pointer_step_spec(p, f).1;
            &&& q.buttons == 0
            &&& (!g.inside && !g.primary_pressed ==> pointer_step_spec(q, g).0
                != PointerRoute::ToPage)
        }),
{
    a_release_clears_exactly_its_button(p.buttons, f);
    let b = buttons_after(p.buttons, f);
    let x = p.buttons;
    assert(x & 0xFA == 0 ==> b & 0xFA == 0) by (bit_vector)
        requires
            b & 0xFA == x & 0xFA,
    ;
    assert(b & 0xFA == 0 && b & 1 == 0 && b & 4 == 0 ==> b == 0) by (bit_vector);
}

/// The held buttons after the frame; see `buttons_after`.
fn held_buttons(down: u8, f: PointerFrame) -> (b: u8)
    ensures
        b == buttons_after(down, f),
{
    let mut b = down;
    if f.primary_pressed {
        b = b | 1;
    }
    if f.primary_released {
        b = b & 0xFE;
    }
    if f.middle_pressed {
        b = b | 4;
    }
    if f.middle_released {
        b = b & 0xFB;
    }
    b
}

/// Append a button's press and release events.
fn push_button_events(ev: &mut Vec<PageEvent>, pressed: bool, released: bool, code: u8)
    ensures
        final(ev)@ == old(ev)@ + button_events(pressed, released, code),
{
    let ghost start = ev@;
    if pressed {
        ev.push(PageEvent::Down { button: code });
    }
    if released {
        ev.push(PageEvent::Up { button: code });
    }
    assert(ev@ =~= start + button_events(pressed, released, code));
}

/// Append the wheel's events.
fn push_wheel_events(ev: &mut Vec<PageEvent>, f: PointerFrame)
    ensures
        final(ev)@ == old(ev)@ + wheel_events(f),
{
    let ghost start = ev@;
    if !f.command {
        if f.wheel_y {
            ev.push(PageEvent::Wheel { horizontal: false });
        }
        if f.wheel_x {
            ev.push(PageEvent::Wheel { horizontal: true });
        }
    }
    assert(ev@ =~= start + wheel_events(f));
}

/// The page's events for a frame; see `page_events_spec`.
fn page_events(down: u8, f: PointerFrame) -> (ev: Vec<PageEvent>)
    ensures
        ev@ == page_events_spec(down, f),
{
    let b = held_buttons(down, f);
    let mut ev: Vec<PageEvent> = Vec::new();
    ev.push(PageEvent::Move { buttons: b });
    assert(ev@ =~= seq![PageEvent::Move { buttons: buttons_after(down, f) }]);
    push_button_events(&mut ev, f.primary_pressed, f.primary_released, 0);
    push_button_events(&mut ev, f.middle_pressed, f.middle_released, 2);
    push_wheel_events(&mut ev, f);
    ev
}

impl PagePointer {
    pub fn new() -> (p: Self)
        ensures
            !p.inside && p.buttons == 0,
    {
        PagePointer { inside: false, buttons: 0 }
    }

    /// Route one frame of the pointer; see `pointer_step_spec`.
    pub fn step(&mut self, f: PointerFrame) -> (r: (PointerRoute, Vec<PageEvent>))
        ensures
            (r.0, *final(self), r.1@) == pointer_step_spec(*old(self), f),
    {
        if !f.inside && self.buttons == 0 {
            if f.primary_pressed {
                return (PointerRoute::Blur, Vec::new());
            }
            if self.inside {
                self.inside = false;
                self.buttons = 0;
                return (PointerRoute::Leave, Vec::new());
            }
            return (PointerRoute::Elsewhere, Vec::new());
        }
        let down = self.buttons;
        let b = held_buttons(down, f);
        let ev = page_events(down, f);
        self.inside = true;
        self.buttons = b;
        (PointerRoute::ToPage, ev)
    }
}

} // verus!
