//! What the board takes from a drag that starts outside the application:
//! the text a dropped data object carries, the URL list a browser offers,
//! whether the drop is taken, and which effect is answered.
//!
//! The OLE plumbing (locking global memory, the drop-target interface)
//! stays with the application; it hands this module the bytes and flags.

use vstd::prelude::*;
use crate::text::{lines, line_spans, trim, trim_span, utf16_of, chars_of, push_char};

verus! {

/// Dropped text larger than this many bytes is refused.
pub const MAX_DROP_TEXT_BYTES: usize = 131_074;

/// At most this many drops wait for the board at once.
pub const MAX_PENDING_DROPS: usize = 16;

/// `DROPEFFECT_NONE`.
pub const DROP_EFFECT_NONE: u32 = 0;
/// `DROPEFFECT_COPY`.
pub const DROP_EFFECT_COPY: u32 = 1;
/// `DROPEFFECT_LINK`.
pub const DROP_EFFECT_LINK: u32 = 4;

/// The index of the first `x` in `s` at or after `i`, or the length.
pub open spec fn first_index_of<T>(s: Seq<T>, x: T, i: int) -> int
    decreases s.len() - i,
{
    if i < 0 || i >= s.len() {
        s.len() as int
    } else if s[i] == x {
        i
    } else {
        first_index_of(s, x, i + 1)
    }
}

/// Little-endian 16-bit units of `b`, two bytes each.
pub open spec fn le_units(b: Seq<u8>) -> Seq<u16> {
    Seq::new(b.len() / 2, |i: int| (b[2 * i] + 256 * b[2 * i + 1]) as u16)
}

/// Whether a dropped buffer of `size` bytes may hold text: not empty, not
/// too large, and, for UTF-16, a whole number of units.
pub open spec fn drop_size_ok(size: int, wide: bool) -> bool {
    0 < size <= MAX_DROP_TEXT_BYTES && (!wide || size % 2 == 0)
}

/// The UTF-16 units before the terminating zero unit, if there is one.
pub open spec fn wide_text_units(b: Seq<u8>) -> Option<Seq<u16>> {
    let u = le_units(b);
    let end = first_index_of(u, 0u16, 0);
    if end < u.len() {
        Some(u.take(end))
    } else {
        None
    }
}

/// The bytes before the first zero byte (all of them when there is none).
pub open spec fn narrow_text_bytes(b: Seq<u8>) -> Seq<u8> {
    b.take(first_index_of(b, 0u8, 0))
}

/// `String::from_utf16`. Its documentation: the text the units encode, or
/// an error if they contain invalid data.
#[verifier::external_body]
fn utf16_string(units: &[u16]) -> (r: Option<String>)
    ensures
        match r {
            Some(s) => utf16_of(s@) == units@,
            None => forall|t: Seq<char>| utf16_of(t) != units@,
        },
{
    String::from_utf16(units).ok()
}

/// `String::from_utf8`. Its documentation: the bytes as a `String` when
/// they are valid UTF-8, an error otherwise.
#[verifier::external_body]
fn utf8_string(bytes: Vec<u8>) -> (r: Option<String>)
    ensures
        match r {
            Some(s) => vstd::utf8::valid_utf8(bytes@) && s@ == vstd::utf8::decode_utf8(bytes@),
            None => !vstd::utf8::valid_utf8(bytes@),
        },
{
    String::from_utf8(bytes).ok()
}

fn first_zero_u16(u: &Vec<u16>) -> (end: usize)
    ensures
        end == first_index_of(u@, 0u16, 0),
{
    let mut i: usize = 0;
    while i < u.len()
        invariant
            i <= u@.len(),
            first_index_of(u@, 0u16, 0) == first_index_of(u@, 0u16, i as int),
        decreases u.len() - i,
    {
        if u[i] == 0 {
            return i;
        }
        i = i + 1;
    }
    i
}

fn first_zero_u8(b: &[u8]) -> (end: usize)
    ensures
        end == first_index_of(b@, 0u8, 0),
{
    let mut i: usize = 0;
    while i < b.len()
        invariant
            i <= b@.len(),
            first_index_of(b@, 0u8, 0) == first_index_of(b@, 0u8, i as int),
        decreases b.len() - i,
    {
        if b[i] == 0 {
            return i;
        }
        i = i + 1;
    }
    i
}

proof fn first_index_bounds<T>(s: Seq<T>, x: T, i: int)
    requires
        0 <= i,
    ensures
        first_index_of(s, x, i) <= s.len(),
        i <= s.len() ==> i <= first_index_of(s, x, i),
    decreases s.len() - i,
{
    if i < s.len() && s[i] != x {
        first_index_bounds(s, x, i + 1);
    }
}

proof fn first_index_facts<T>(s: Seq<T>, x: T, i: int)
    requires
        0 <= i <= s.len(),
    ensures
        i <= first_index_of(s, x, i) <= s.len(),
        forall|j: int| i <= j < first_index_of(s, x, i) ==> s[j] != x,
        first_index_of(s, x, i) < s.len() ==> s[first_index_of(s, x, i)] == x,
    decreases s.len() - i,
{
    if i < s.len() && s[i] != x {
        first_index_facts(s, x, i + 1);
    }
}

/// A dropped buffer's text stops at its terminator: the narrow text is the
/// bytes before the first zero byte (all of them when there is none) and
/// holds no zero; the wide text is the units before the first zero unit and
/// holds none, and without a zero unit there is no wide text. Buffers that
/// are empty, over the size limit, or (wide) of an odd size are refused.
pub proof fn dropped_text_ends_at_its_terminator(b: Seq<u8>, wide: bool)
    ensures
        b.len() == 0 || b.len() > MAX_DROP_TEXT_BYTES || (wide && b.len() % 2 == 1)
            ==> !drop_size_ok(b.len() as int, wide),
        0 < b.len() <= MAX_DROP_TEXT_BYTES && (!wide || b.len() % 2 == 0) ==> drop_size_ok(
            b.len() as int,
            wide,
        ),
        narrow_text_bytes(b).len() <= b.len(),
        narrow_text_bytes(b) == b.take(narrow_text_bytes(b).len() as int),
        forall|i: int| 0 <= i < narrow_text_bytes(b).len() ==> #[trigger] narrow_text_bytes(b)[i]
            != 0,
        narrow_text_bytes(b).len() < b.len() ==> b[narrow_text_bytes(b).len() as int] == 0,
        (forall|i: int| 0 <= i < b.len() ==> #[trigger] b[i] != 0) ==> narrow_text_bytes(b) == b,
        wide_text_units(b) is Some <==> le_units(b).contains(0u16),
        wide_text_units(b) matches Some(u) ==> u == le_units(b).take(u.len() as int) && le_units(
            b,
        )[u.len() as int] == 0 && forall|i: int| 0 <= i < u.len() ==> #[trigger] u[i] != 0,
{
    first_index_facts(b, 0u8, 0);
    let n = first_index_of(b, 0u8, 0);
    assert forall|i: int| 0 <= i < narrow_text_bytes(b).len() implies #[trigger] narrow_text_bytes(b)[i]
        != 0 by {
        assert(narrow_text_bytes(b)[i] == b[i]);
    }
    if forall|i: int| 0 <= i < b.len() ==> #[trigger] b[i] != 0 {
        if n < b.len() {
            assert(b[n] == 0);
        }
        assert(b.take(b.len() as int) =~= b);
    }
    let u = le_units(b);
    first_index_facts(u, 0u16, 0);
    let e = first_index_of(u, 0u16, 0);
    if u.contains(0u16) {
        let k = choose|k: int| 0 <= k < u.len() && u[k] == 0u16;
        assert(e <= k);
    }
    if e < u.len() {
        let w = u.take(e);
        assert forall|i: int| 0 <= i < w.len() implies #[trigger] w[i] != 0 by {
            assert(w[i] == u[i]);
        }
        assert(w =~= u.take(w.len() as int));
    }
}

/// The text of a dropped buffer: UTF-16 up to its terminating zero unit
/// (`wide`), or UTF-8 up to the first zero byte. `None` when the size is
/// refused, a UTF-16 buffer has no terminator, or the encoding is invalid.
pub fn drop_text(bytes: &[u8], wide: bool) -> (r: Option<String>)
    ensures
        !drop_size_ok(bytes@.len() as int, wide) ==> r is None,
        drop_size_ok(bytes@.len() as int, wide) && wide ==> match r {
            Some(t) => wide_text_units(bytes@) == Some(utf16_of(t@)),
            None => match wide_text_units(bytes@) {
                Some(u) => forall|t: Seq<char>| utf16_of(t) != u,
                None => true,
            },
        },
        drop_size_ok(bytes@.len() as int, wide) && !wide ==> match r {
            Some(t) => vstd::utf8::valid_utf8(narrow_text_bytes(bytes@)) && t@
                == vstd::utf8::decode_utf8(narrow_text_bytes(bytes@)),
            None => !vstd::utf8::valid_utf8(narrow_text_bytes(bytes@)),
        },
{
    let size = bytes.len();
    if size == 0 || size > MAX_DROP_TEXT_BYTES || (wide && size % 2 != 0) {
        return None;
    }
    if wide {
        let mut units: Vec<u16> = Vec::new();
        let mut i: usize = 0;
        while i < size / 2
            invariant
                size == bytes@.len(),
                i <= size / 2,
                units@ =~= le_units(bytes@).take(i as int),
            decreases size / 2 - i,
        {
            let u = bytes[2 * i] as u16 + (bytes[2 * i + 1] as u16) * 256;
            units.push(u);
            i = i + 1;
        }
        assert(units@ =~= le_units(bytes@));
        let end = first_zero_u16(&units);
        if end >= units.len() {
            return None;
        }
        let body = vstd::slice::slice_subrange(units.as_slice(), 0, end);
        assert(body@ =~= units@.take(end as int));
        utf16_string(body)
    } else {
        let end = first_zero_u8(bytes);
        proof {
            first_index_bounds(bytes@, 0u8, 0);
        }
        let mut head: Vec<u8> = Vec::new();
        let mut i: usize = 0;
        while i < end
            invariant
                end <= bytes@.len(),
                i <= end,
                head@ =~= bytes@.take(i as int),
            decreases end - i,
        {
            head.push(bytes[i]);
            i = i + 1;
        }
        utf8_string(head)
    }
}

/// Whether a line of a `text/uri-list` is a URL: not a `#` comment, not
/// blank.
pub open spec fn uri_line_kept(l: Seq<char>) -> bool {
    !(l.len() > 0 && l[0] == '#') && trim(l).len() > 0
}

/// The kept lines among the line spans `spans` of `s`, in order.
pub open spec fn kept_uri_lines(s: Seq<char>, spans: Seq<(int, int)>) -> Seq<Seq<char>>
    decreases spans.len(),
{
    if spans.len() == 0 {
        Seq::empty()
    } else {
        let r = kept_uri_lines(s, spans.drop_last());
        let l = s.subrange(spans.last().0, spans.last().1);
        if uri_line_kept(l) {
            r.push(l)
        } else {
            r
        }
    }
}

/// Lines joined with `'\n'` between them.
pub open spec fn join_lines(ls: Seq<Seq<char>>) -> Seq<char>
    decreases ls.len(),
{
    if ls.len() == 0 {
        Seq::empty()
    } else if ls.len() == 1 {
        ls[0]
    } else {
        join_lines(ls.drop_last()) + seq!['\n'] + ls.last()
    }
}

proof fn kept_lines_are_urls(s: Seq<char>, spans: Seq<(int, int)>)
    ensures
        forall|j: int|
            0 <= j < kept_uri_lines(s, spans).len() ==> uri_line_kept(
                #[trigger] kept_uri_lines(s, spans)[j],
            ),
        kept_uri_lines(s, spans).len() <= spans.len(),
    decreases spans.len(),
{
    if spans.len() > 0 {
        kept_lines_are_urls(s, spans.drop_last());
        let r = kept_uri_lines(s, spans.drop_last());
        let k = kept_uri_lines(s, spans);
        assert forall|j: int| 0 <= j < k.len() implies uri_line_kept(#[trigger] k[j]) by {
            if j < r.len() {
                assert(k[j] == r[j]);
            }
        }
    }
}

/// A `text/uri-list` keeps only URL lines: none of the lines it keeps is a
/// `#` comment or blank; a single URL line (no line break, not a comment,
/// not blank) comes back as it is, and a list of nothing but comments and
/// blank lines gives nothing.
pub proof fn a_uri_list_keeps_only_url_lines(s: Seq<char>)
    ensures
        forall|j: int|
            0 <= j < kept_uri_lines(s, lines(s)).len() ==> uri_line_kept(
                #[trigger] kept_uri_lines(s, lines(s))[j],
            ),
        !s.contains('\n') && uri_line_kept(s) ==> uri_list_spec(s) == s,
        (forall|k: int|
            0 <= k < lines(s).len() ==> !uri_line_kept(
                s.subrange(#[trigger] lines(s)[k].0, lines(s)[k].1),
            )) ==> uri_list_spec(s) == Seq::<char>::empty(),
{
    kept_lines_are_urls(s, lines(s));
    if !s.contains('\n') && uri_line_kept(s) {
        assert(s.len() > 0);
        crate::text::line_end_bounds(s, 0);
        assert(crate::text::line_end(s, 0) == s.len()) by {
            if crate::text::line_end(s, 0) < s.len() {
                assert(s[crate::text::line_end(s, 0)] == '\n');
            }
        }
        assert(crate::text::lines_from(s, s.len() + 1int) == Seq::<(int, int)>::empty());
        assert(lines(s) =~= seq![(0int, s.len() as int)]);
        assert(lines(s).drop_last() =~= Seq::<(int, int)>::empty());
        assert(s.subrange(0, s.len() as int) =~= s);
        assert(kept_uri_lines(s, lines(s)) =~= seq![s]);
    }
    if forall|k: int|
        0 <= k < lines(s).len() ==> !uri_line_kept(s.subrange(#[trigger] lines(s)[k].0, lines(s)[k].1)) {
        none_kept(s, lines(s));
    }
}

proof fn none_kept(s: Seq<char>, spans: Seq<(int, int)>)
    requires
        forall|k: int| 0 <= k < spans.len() ==> !uri_line_kept(s.subrange(#[trigger] spans[k].0, spans[k].1)),
    ensures
        kept_uri_lines(s, spans).len() == 0,
    decreases spans.len(),
{
    if spans.len() > 0 {
        let t = spans.drop_last();
        assert forall|k: int| 0 <= k < t.len() implies !uri_line_kept(s.subrange(#[trigger] t[k].0, t[k].1)) by {
            assert(t[k] == spans[k]);
        }
        none_kept(s, t);
        assert(spans[spans.len() - 1] == spans.last());
    }
}

/// The URLs of a `text/uri-list`, one per line.
pub open spec fn uri_list_spec(s: Seq<char>) -> Seq<char> {
    join_lines(kept_uri_lines(s, lines(s)))
}

/// The URL lines of a `text/uri-list`: comments and blank lines dropped,
/// the rest joined by `'\n'`.
pub fn uri_list_text(text: &str) -> (r: String)
    ensures
        r@ == uri_list_spec(text@),
{
    let v = chars_of(text);
    let spans = line_spans(&v);
    let ghost s = v@;
    let ghost sp = lines(s);
    let mut out = String::new();
    let mut kept = false;
    let mut k: usize = 0;
    while k < spans.len()
        invariant
            s == v@,
            s == text@,
            sp == lines(s),
            spans@.len() == sp.len(),
            forall|j: int|
                0 <= j < spans@.len() ==> (#[trigger] spans@[j]).0 as int == sp[j].0
                    && spans@[j].1 as int == sp[j].1,
            forall|j: int| 0 <= j < spans@.len() ==> (#[trigger] spans@[j]).0 <= spans@[j].1 <= v@.len(),
            k <= spans@.len(),
            kept == (kept_uri_lines(s, sp.take(k as int)).len() > 0),
            out@ == join_lines(kept_uri_lines(s, sp.take(k as int))),
        decreases spans.len() - k,
    {
        let (a, b) = spans[k];
        assert(sp.take(k as int + 1).drop_last() =~= sp.take(k as int));
        assert(sp.take(k as int + 1).last() == sp[k as int]);
        let (ta, tb) = trim_span(&v, a, b);
        let comment = a < b && v[a] == '#';
        if !comment && ta < tb {
            let ghost before = out@;
            let ghost ks = kept_uri_lines(s, sp.take(k as int));
            let ghost l = s.subrange(a as int, b as int);
            if kept {
                push_char(&mut out, '\n');
            }
            let mut i = a;
            while i < b
                invariant
                    a <= i <= b <= v@.len(),
                    s == v@,
                    out@ == (if kept {
                        before + seq!['\n']
                    } else {
                        before
                    }) + s.subrange(a as int, i as int),
                decreases b - i,
            {
                push_char(&mut out, v[i]);
                assert(s.subrange(a as int, i as int).push(s[i as int]) =~= s.subrange(
                    a as int,
                    i + 1,
                ));
                i = i + 1;
            }
            proof {
                assert(uri_line_kept(l));
                let ks2 = ks.push(l);
                assert(kept_uri_lines(s, sp.take(k as int + 1)) == ks2);
                if ks.len() == 0 {
                    assert(out@ =~= join_lines(ks2));
                } else {
                    assert(ks2.drop_last() =~= ks);
                    assert(out@ =~= join_lines(ks2));
                }
            }
            kept = true;
        } else {
            proof {
                let l = s.subrange(a as int, b as int);
                assert(!uri_line_kept(l));
            }
        }
        k = k + 1;
    }
    assert(sp.take(spans@.len() as int) =~= sp);
    out
}

/// Whether a drop is taken: the queue has room, and it is files, or a URL
/// over the area that accepts URLs.
pub open spec fn accepts_spec(pending: int, files: bool, url_over_area: bool) -> bool {
    pending < MAX_PENDING_DROPS && (files || url_over_area)
}

/// A drop is taken only with room in the queue and something to land (files,
/// or a URL over the board); with room, files are always taken; and a drop
/// taken with some drops pending is taken with fewer pending too.
pub proof fn drops_are_taken_with_room_only(pending: int, fewer: int, files: bool, url_over_area: bool)
    ensures
        accepts_spec(pending, files, url_over_area) ==> pending < MAX_PENDING_DROPS,
        accepts_spec(pending, files, url_over_area) ==> files || url_over_area,
        pending < MAX_PENDING_DROPS && (files || url_over_area) ==> accepts_spec(
            pending,
            files,
            url_over_area,
        ),
        accepts_spec(pending, files, url_over_area) && fewer <= pending ==> accepts_spec(
            fewer,
            files,
            url_over_area,
        ),
{
}

pub fn accepts(pending: usize, files: bool, url_over_area: bool) -> (r: bool)
    ensures
        r == accepts_spec(pending as int, files, url_over_area),
{
    pending < MAX_PENDING_DROPS && (files || url_over_area)
}

/// The effect answered for a drag: copy when the drop is taken and the
/// source offers copy, else link when it offers that, else none.
pub open spec fn drop_effect_spec(accepted: bool, offered: u32) -> u32 {
    if accepted && offered & DROP_EFFECT_COPY != 0 {
        DROP_EFFECT_COPY
    } else if accepted && offered & DROP_EFFECT_LINK != 0 {
        DROP_EFFECT_LINK
    } else {
        DROP_EFFECT_NONE
    }
}

pub fn drop_effect(accepted: bool, offered: u32) -> (r: u32)
    ensures
        r == drop_effect_spec(accepted, offered),
{
    if accepted {
        if offered & DROP_EFFECT_COPY != 0 {
            return DROP_EFFECT_COPY;
        }
        if offered & DROP_EFFECT_LINK != 0 {
            return DROP_EFFECT_LINK;
        }
    }
    DROP_EFFECT_NONE
}

/// A refused drop never gets an effect, and the answer is always one the
/// source offered or none.
pub proof fn the_effect_is_offered_or_none(accepted: bool, offered: u32)
    ensures
        !accepted ==> drop_effect_spec(accepted, offered) == DROP_EFFECT_NONE,
        drop_effect_spec(accepted, offered) == DROP_EFFECT_NONE || offered & drop_effect_spec(
            accepted,
            offered,
        ) != 0,
{
}

} // verus!
