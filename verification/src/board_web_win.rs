//! Text that the WebView2 host hands to the browser: navigation URIs, wide
//! strings, and JSON string bodies for DevTools calls.

use vstd::prelude::*;
use crate::text::{
    chars_of, flat_map_chars, flat_map_chars_step, has_prefix_ascii_ci, hex_lower,
    hex_lower_char, push_char, push_chars, starts_with_ascii_ci, string_from_chars, utf16_of,
    encode_utf16_nul,
};

verus! {

/// A NUL-terminated UTF-16 string for the WebView2 APIs.
pub fn wide(s: &str) -> (w: Vec<u16>)
    ensures
        w@ == utf16_of(s@).push(0u16),
{
    encode_utf16_nul(s)
}

/// What one path character becomes in a `file:///` URI: backslashes turn
/// into slashes, and the few characters a URI cannot carry literally are
/// percent-encoded. Everything else, non-ASCII folder names included, stays.
pub open spec fn uri_piece(c: char) -> Seq<char> {
    if c == '\\' {
        seq!['/']
    } else if c == ' ' {
        seq!['%', '2', '0']
    } else if c == '#' {
        seq!['%', '2', '3']
    } else if c == '?' {
        seq!['%', '3', 'F']
    } else if c == '%' {
        seq!['%', '2', '5']
    } else {
        seq![c]
    }
}

/// Whether a target already is a URI the browser takes as it stands.
pub open spec fn is_navigable_uri(t: Seq<char>) -> bool {
    has_prefix_ascii_ci(t, "http://"@) || has_prefix_ascii_ci(t, "https://"@)
        || has_prefix_ascii_ci(t, "file://"@) || has_prefix_ascii_ci(t, "about:"@)
}

/// `Navigate` takes a URI, not a path: remote and formed URIs pass through,
/// and a bare path becomes a `file:///` URI.
pub open spec fn navigate_uri_spec(t: Seq<char>) -> Seq<char> {
    if is_navigable_uri(t) {
        t
    } else {
        "file:///"@ + flat_map_chars(t, |c: char| uri_piece(c))
    }
}

/// A URI the browser already takes is navigated to as it stands; a bare
/// path becomes a `file:///` URI in which no backslash, space, `#` or `?`
/// is left raw, and a path with none of those (nor `%`) is kept verbatim
/// after the scheme.
pub proof fn a_bare_path_becomes_a_file_uri(t: Seq<char>)
    ensures
        is_navigable_uri(t) ==> navigate_uri_spec(t) == t,
        !is_navigable_uri(t) ==> navigate_uri_spec(t).take(8) == "file:///"@,
        !is_navigable_uri(t) ==> forall|i: int|
            8 <= i < navigate_uri_spec(t).len() ==> !uri_special(#[trigger] navigate_uri_spec(t)[i]),
        !is_navigable_uri(t) && (forall|i: int| 0 <= i < t.len() ==> !uri_special(#[trigger] t[i])
            && t[i] != '%') ==> navigate_uri_spec(t) == "file:///"@ + t,
{
    let f = |c: char| uri_piece(c);
    if !is_navigable_uri(t) {
        reveal_strlit("file:///");
        let m = flat_map_chars(t, f);
        let out = navigate_uri_spec(t);
        assert(out.take(8) =~= "file:///"@);
        let bad = |c: char| uri_special(c);
        crate::text::flat_map_chars_avoids(t, f, bad);
        assert forall|i: int| 8 <= i < out.len() implies !uri_special(#[trigger] out[i]) by {
            assert(out[i] == m[i - 8]);
            assert(!bad(m[i - 8]));
        }
        if forall|i: int| 0 <= i < t.len() ==> !uri_special(#[trigger] t[i]) && t[i] != '%' {
            assert forall|i: int| 0 <= i < t.len() implies f(#[trigger] t[i]) == seq![t[i]] by {
                assert(!uri_special(t[i]));
            }
            crate::text::flat_map_chars_identity(t, f);
        }
    }
}

/// What a file URI may not hold raw.
pub open spec fn uri_special(c: char) -> bool {
    c == '\\' || c == ' ' || c == '#' || c == '?'
}

pub fn navigate_uri(target: &str) -> (s: String)
    ensures
        s@ == navigate_uri_spec(target@),
{
    let t = chars_of(target);
    let http = chars_of("http://");
    let https = chars_of("https://");
    let file = chars_of("file://");
    let about = chars_of("about:");
    if starts_with_ascii_ci(&t, &http) || starts_with_ascii_ci(&t, &https) || starts_with_ascii_ci(
        &t,
        &file,
    ) || starts_with_ascii_ci(&t, &about) {
        return string_from_chars(&t);
    }
    let mut out = String::from_str("file:///");
    let ghost f = |c: char| uri_piece(c);
    let mut i: usize = 0;
    while i < t.len()
        invariant
            i <= t@.len(),
            f == (|c: char| uri_piece(c)),
            out@ == "file:///"@ + flat_map_chars(t@.take(i as int), f),
        decreases t.len() - i,
    {
        let ch = t[i];
        proof {
            flat_map_chars_step(t@, i as int, f);
        }
        if ch == '\\' {
            push_char(&mut out, '/');
        } else if ch == ' ' {
            push_char(&mut out, '%');
            push_char(&mut out, '2');
            push_char(&mut out, '0');
        } else if ch == '#' {
            push_char(&mut out, '%');
            push_char(&mut out, '2');
            push_char(&mut out, '3');
        } else if ch == '?' {
            push_char(&mut out, '%');
            push_char(&mut out, '3');
            push_char(&mut out, 'F');
        } else if ch == '%' {
            push_char(&mut out, '%');
            push_char(&mut out, '2');
            push_char(&mut out, '5');
        } else {
            push_char(&mut out, ch);
        }
        assert(out@ =~= "file:///"@ + flat_map_chars(t@.take(i + 1), f));
        i = i + 1;
    }
    assert(t@.take(t@.len() as int) =~= t@);
    out
}

/// What one character becomes inside a JSON string literal.
pub open spec fn json_piece(c: char) -> Seq<char> {
    if c == '"' {
        seq!['\\', '"']
    } else if c == '\\' {
        seq!['\\', '\\']
    } else if c == '\n' {
        seq!['\\', 'n']
    } else if c == '\r' {
        seq!['\\', 'r']
    } else if c == '\t' {
        seq!['\\', 't']
    } else if (c as u32) < 0x20 {
        seq!['\\', 'u', '0', '0', hex_lower((c as u32 / 16) as nat), hex_lower((c as u32 % 16) as nat)]
    } else {
        seq![c]
    }
}

/// `s` as the body of a JSON string literal.
pub open spec fn json_escaped(s: Seq<char>) -> Seq<char> {
    flat_map_chars(s, |c: char| json_piece(c))
}

/// Whether a character must be escaped inside a JSON string.
pub open spec fn json_special(c: char) -> bool {
    c == '"' || c == '\\' || (c as u32) < 0x20
}

/// Escaping for JSON leaves text with nothing to escape as it is, and its
/// output never holds a control character, so it stays one line of a
/// string literal.
pub proof fn json_escaping_keeps_plain_text_and_drops_controls(s: Seq<char>)
    ensures
        (forall|i: int| 0 <= i < s.len() ==> !json_special(#[trigger] s[i])) ==> json_escaped(s)
            == s,
        forall|i: int|
            0 <= i < json_escaped(s).len() ==> (#[trigger] json_escaped(s)[i]) as u32 >= 0x20,
{
    let f = |c: char| json_piece(c);
    if forall|i: int| 0 <= i < s.len() ==> !json_special(#[trigger] s[i]) {
        assert forall|i: int| 0 <= i < s.len() implies f(#[trigger] s[i]) == seq![s[i]] by {
            assert(!json_special(s[i]));
        }
        crate::text::flat_map_chars_identity(s, f);
    }
    let bad = |c: char| (c as u32) < 0x20;
    assert forall|c: char, j: int| 0 <= j < f(c).len() implies !bad(#[trigger] f(c)[j]) by {
        if (c as u32) < 0x20 && c != '\n' && c != '\r' && c != '\t' {
            let a = (c as u32 / 16) as nat;
            let b = (c as u32 % 16) as nat;
            assert((((a + 48) as u32) as char) as u32 == a + 48);
            assert((((b + 48) as u32) as char) as u32 == b + 48);
            assert((((b + 87) as u32) as char) as u32 == b + 87);
        }
    }
    crate::text::flat_map_chars_avoids(s, f, bad);
}

/// The body of a JSON string literal holding `s`.
pub fn json_escape(s: &str) -> (out: String)
    ensures
        out@ == flat_map_chars(s@, |c: char| json_piece(c)),
{
    let t = chars_of(s);
    let mut out = String::new();
    let ghost f = |c: char| json_piece(c);
    let mut i: usize = 0;
    while i < t.len()
        invariant
            i <= t@.len(),
            f == (|c: char| json_piece(c)),
            t@ == s@,
            out@ == flat_map_chars(t@.take(i as int), f),
        decreases t.len() - i,
    {
        let c = t[i];
        proof {
            flat_map_chars_step(t@, i as int, f);
        }
        if c == '"' {
            push_char(&mut out, '\\');
            push_char(&mut out, '"');
        } else if c == '\\' {
            push_char(&mut out, '\\');
            push_char(&mut out, '\\');
        } else if c == '\n' {
            push_char(&mut out, '\\');
            push_char(&mut out, 'n');
        } else if c == '\r' {
            push_char(&mut out, '\\');
            push_char(&mut out, 'r');
        } else if c == '\t' {
            push_char(&mut out, '\\');
            push_char(&mut out, 't');
        } else if (c as u32) < 0x20 {
            let v = c as u32;
            push_char(&mut out, '\\');
            push_char(&mut out, 'u');
            push_char(&mut out, '0');
            push_char(&mut out, '0');
            push_char(&mut out, hex_lower_char((v / 16) as u8));
            push_char(&mut out, hex_lower_char((v % 16) as u8));
        } else {
            push_char(&mut out, c);
        }
        assert(out@ =~= flat_map_chars(t@.take(i + 1), f));
        i = i + 1;
    }
    assert(t@.take(t@.len() as int) =~= t@);
    out
}

} // verus!

verus! {

/// Pixel `(x, y)` of a BGRA surface whose rows are `pitch` bytes apart, as
/// RGBA.
pub open spec fn bgra_pixel(d: Seq<u8>, pitch: int, y: int, x: int) -> [u8; 4] {
    let i = y * pitch + x * 4;
    [d[i + 2], d[i + 1], d[i], d[i + 3]]
}

/// The first `n` pixels of row `y`.
pub open spec fn bgra_row(d: Seq<u8>, pitch: int, y: int, n: int) -> Seq<[u8; 4]>
    decreases n,
{
    if n <= 0 {
        Seq::empty()
    } else {
        bgra_row(d, pitch, y, n - 1).push(bgra_pixel(d, pitch, y, n - 1))
    }
}

/// The first `n` rows of a `w`-pixel-wide surface, top first.
pub open spec fn bgra_rows(d: Seq<u8>, pitch: int, w: int, n: int) -> Seq<[u8; 4]>
    decreases n,
{
    if n <= 0 {
        Seq::empty()
    } else {
        bgra_rows(d, pitch, w, n - 1) + bgra_row(d, pitch, n - 1, w)
    }
}

proof fn bgra_row_facts(d: Seq<u8>, pitch: int, y: int, n: int)
    requires
        n >= 0,
    ensures
        bgra_row(d, pitch, y, n).len() == n,
        forall|x: int| 0 <= x < n ==> #[trigger] bgra_row(d, pitch, y, n)[x] == bgra_pixel(d, pitch, y, x),
    decreases n,
{
    if n > 0 {
        bgra_row_facts(d, pitch, y, n - 1);
    }
}

/// A captured surface becomes `w * h` pixels, rows top first: pixel
/// `(x, y)` is the four bytes at row `y`'s start plus `4 * x`, with blue and
/// red swapped and alpha kept.
pub proof fn captured_rows_become_rgba_pixels(d: Seq<u8>, pitch: int, w: int, h: int)
    requires
        w >= 0,
        h >= 0,
    ensures
        bgra_rows(d, pitch, w, h).len() == w * h,
        forall|y: int, x: int|
            0 <= y < h && 0 <= x < w ==> #[trigger] bgra_rows(d, pitch, w, h)[y * w + x] == [
                d[y * pitch + 4 * x + 2],
                d[y * pitch + 4 * x + 1],
                d[y * pitch + 4 * x],
                d[y * pitch + 4 * x + 3],
            ],
    decreases h,
{
    if h > 0 {
        captured_rows_become_rgba_pixels(d, pitch, w, h - 1);
        bgra_row_facts(d, pitch, h - 1, w);
        let prev = bgra_rows(d, pitch, w, h - 1);
        let r = bgra_rows(d, pitch, w, h);
        assert(w * h == w * (h - 1) + w) by (nonlinear_arith);
        assert forall|y: int, x: int| 0 <= y < h && 0 <= x < w implies #[trigger] r[y * w + x] == [
            d[y * pitch + 4 * x + 2],
            d[y * pitch + 4 * x + 1],
            d[y * pitch + 4 * x],
            d[y * pitch + 4 * x + 3],
        ] by {
            if y < h - 1 {
                assert(y * w + x < w * (h - 1)) by (nonlinear_arith)
                    requires
                        0 <= y < h - 1,
                        0 <= x < w,
                ;
                assert(r[y * w + x] == prev[y * w + x]);
            } else {
                assert(y * w + x == w * (h - 1) + x) by (nonlinear_arith)
                    requires
                        y == h - 1,
                ;
                assert(r[y * w + x] == bgra_row(d, pitch, h - 1, w)[x]);
                assert(x * 4 == 4 * x);
            }
        }
    } else {
        assert(w * h == 0) by (nonlinear_arith)
            requires
                h == 0,
        ;
    }
}

/// Whether `h` rows of `w` BGRA pixels, `pitch` bytes apart, lie in `len`
/// bytes.
pub open spec fn surface_fits(len: int, pitch: int, w: int, h: int) -> bool {
    h == 0 || (w * 4 <= pitch && (h - 1) * pitch + w * 4 <= len)
}

proof fn surface_offsets(len: int, pitch: int, w: int, h: int, y: int, x: int)
    requires
        surface_fits(len, pitch, w, h),
        0 <= y < h,
        0 <= x < w,
        pitch >= 0,
    ensures
        0 <= y * pitch,
        y * pitch + x * 4 + 4 <= len,
{
    assert(0 <= y * pitch) by (nonlinear_arith)
        requires
            0 <= y,
            pitch >= 0,
    ;
    assert(y * pitch <= (h - 1) * pitch) by (nonlinear_arith)
        requires
            0 <= y <= h - 1,
            pitch >= 0,
    ;
}

/// A mapped BGRA surface read row by row into RGBA pixels: the capture the
/// browser host hands back, turned into the picture the board paints.
pub fn bgra_to_rgba(data: &[u8], pitch: usize, w: usize, h: usize) -> (px: Vec<[u8; 4]>)
    requires
        surface_fits(data@.len() as int, pitch as int, w as int, h as int),
    ensures
        px@ == bgra_rows(data@, pitch as int, w as int, h as int),
{
    let mut px: Vec<[u8; 4]> = Vec::new();
    let len = data.len();
    let mut y: usize = 0;
    while y < h
        invariant
            len == data@.len(),
            surface_fits(len as int, pitch as int, w as int, h as int),
            y <= h,
            px@ == bgra_rows(data@, pitch as int, w as int, y as int),
        decreases h - y,
    {
        proof {
            if w > 0 {
                surface_offsets(len as int, pitch as int, w as int, h as int, y as int, 0);
            } else {
                assert(0 <= y * pitch) by (nonlinear_arith)
                    requires
                        0 <= y,
                        pitch >= 0,
                ;
                assert(y * pitch <= (h - 1) * pitch) by (nonlinear_arith)
                    requires
                        0 <= y <= h - 1,
                        pitch >= 0,
                ;
            }
        }
        let row = y * pitch;
        let ghost done = px@;
        let mut x: usize = 0;
        while x < w
            invariant
                len == data@.len(),
                surface_fits(len as int, pitch as int, w as int, h as int),
                y < h,
                x <= w,
                row == y * pitch,
                done == bgra_rows(data@, pitch as int, w as int, y as int),
                px@ == done + bgra_row(data@, pitch as int, y as int, x as int),
            decreases w - x,
        {
            proof {
                surface_offsets(len as int, pitch as int, w as int, h as int, y as int, x as int);
            }
            let i = row + x * 4;
            px.push([data[i + 2], data[i + 1], data[i], data[i + 3]]);
            assert(px@ =~= done + bgra_row(data@, pitch as int, y as int, x + 1));
            x = x + 1;
        }
        y = y + 1;
    }
    px
}

} // verus!
