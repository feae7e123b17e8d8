//! Paste from outside the board: a clipboard line that names a file, and a
//! clipboard bitmap (DIB, DIBV5, or BMP file) turned into PNG bytes.
//!
//! A pasted bitmap is a file the workbook links to, never bytes stored in the
//! workbook. Clipboard bitmaps past a fixed size are refused: a paste must not
//! allocate a runaway buffer.

use vstd::prelude::*;
use crate::text::{
    chars_of, has_prefix, has_prefix_ascii_ci, is_ws, line_spans, lines, starts_with_ascii_ci,
    starts_with_at, string_from_chars, sub_chars, trim, trim_span, decimal, push_char,
    decimal_chars, push_chars,
};
use crate::board_web::{has_scheme_mark, is_remote};

verus! {

/// Clipboard bitmaps with more pixels than this are refused.
pub const MAX_PASTE_PIXELS: u64 = 64 * 1024 * 1024;
/// Clipboard PNG streams longer than this are refused.
pub const MAX_PASTE_PNG_BYTES: usize = 80 * 1024 * 1024;

/// The value of an ASCII hexadecimal digit, if `b` is one.
pub open spec fn hex_value(b: u8) -> Option<u8> {
    if 0x30 <= b <= 0x39 {
        Some((b - 0x30) as u8)
    } else if 0x41 <= b <= 0x46 {
        Some((b - 0x41 + 10) as u8)
    } else if 0x61 <= b <= 0x66 {
        Some((b - 0x61 + 10) as u8)
    } else {
        None
    }
}

/// What `u8::from_str_radix(_, 16)` makes of the two bytes after a `%`: two
/// hex digits, or a `+` sign and one.
pub open spec fn escape_value(b1: u8, b2: u8) -> Option<u8> {
    match (hex_value(b1), hex_value(b2)) {
        (Some(h), Some(l)) => Some((h * 16 + l) as u8),
        _ => if b1 == 0x2B {
            hex_value(b2)
        } else {
            None
        },
    }
}

fn hex_value_exec(b: u8) -> (r: Option<u8>)
    ensures
        r == hex_value(b),
{
    if 0x30 <= b && b <= 0x39 {
        Some(b - 0x30)
    } else if 0x41 <= b && b <= 0x46 {
        Some(b - 0x41 + 10)
    } else if 0x61 <= b && b <= 0x66 {
        Some(b - 0x61 + 10)
    } else {
        None
    }
}

fn escape_value_exec(b1: u8, b2: u8) -> (r: Option<u8>)
    ensures
        r == escape_value(b1, b2),
{
    match (hex_value_exec(b1), hex_value_exec(b2)) {
        (Some(h), Some(l)) => Some(h * 16 + l),
        _ => if b1 == 0x2B {
            hex_value_exec(b2)
        } else {
            None
        },
    }
}

/// The bytes of `b[i..]` with each `%XX` escape that has two more bytes
/// after it decoded; any other byte copied as it is.
pub open spec fn percent_bytes_from(b: Seq<u8>, i: int) -> Seq<u8>
    decreases b.len() - i,
{
    if i < 0 || i >= b.len() {
        Seq::empty()
    } else if b[i] == 0x25 && i + 2 < b.len() && escape_value(b[i + 1], b[i + 2]) is Some {
        seq![escape_value(b[i + 1], b[i + 2])->0] + percent_bytes_from(b, i + 3)
    } else {
        seq![b[i]] + percent_bytes_from(b, i + 1)
    }
}

/// What `String::from_utf8_lossy` makes of `bytes`.
pub uninterp spec fn utf8_lossy(bytes: Seq<u8>) -> Seq<char>;

/// `String::from_utf8_lossy`: the text of `bytes`, with each invalid
/// sequence replaced by U+FFFD. Its documentation states that valid UTF-8
/// comes back as the text it encodes; the replacement rule for invalid
/// input is named, not stated.
#[verifier::external_body]
fn lossy_string(bytes: &[u8]) -> (s: String)
    ensures
        s@ == utf8_lossy(bytes@),
        vstd::utf8::valid_utf8(bytes@) ==> s@ == vstd::utf8::decode_utf8(bytes@),
{
    String::from_utf8_lossy(bytes).into_owned()
}

/// Percent-decoding of a clipboard `file://` path: a string without `%` is
/// returned as it is; otherwise its UTF-8 bytes are decoded, and read back as
/// the text they encode when they are valid UTF-8, lossily when not.
pub open spec fn percent_decode_spec(s: Seq<char>) -> Seq<char> {
    if !s.contains('%') {
        s
    } else {
        let b = percent_bytes_from(vstd::utf8::encode_utf8(s), 0);
        if vstd::utf8::valid_utf8(b) {
            vstd::utf8::decode_utf8(b)
        } else {
            utf8_lossy(b)
        }
    }
}

/// Text with no `%` in it is left exactly as it is.
pub proof fn text_without_escapes_decodes_to_itself(s: Seq<char>)
    requires
        forall|i: int| 0 <= i < s.len() ==> s[i] != '%',
    ensures
        percent_decode_spec(s) == s,
{
}

pub fn percent_decode(s: &str) -> (r: String)
    ensures
        r@ == percent_decode_spec(s@),
{
    let chars = chars_of(s);
    let mut found = false;
    let mut k: usize = 0;
    while k < chars.len()
        invariant
            k <= chars@.len(),
            chars@ == s@,
            found == exists|j: int| 0 <= j < k && chars@[j] == '%',
        decreases chars.len() - k,
    {
        if chars[k] == '%' {
            found = true;
        }
        k = k + 1;
    }
    if !found {
        assert(!s@.contains('%'));
        return string_from_chars(&chars);
    }
    let bytes = s.as_bytes();
    let mut out: Vec<u8> = Vec::new();
    let mut i: usize = 0;
    while i < bytes.len()
        invariant
            i <= bytes@.len(),
            out@ + percent_bytes_from(bytes@, i as int) == percent_bytes_from(bytes@, 0),
        decreases bytes.len() - i,
    {
        if bytes[i] == 0x25 && 2 < bytes.len() - i {
            if let Some(v) = escape_value_exec(bytes[i + 1], bytes[i + 2]) {
                assert(percent_bytes_from(bytes@, i as int) == seq![v] + percent_bytes_from(
                    bytes@,
                    i + 3,
                ));
                out.push(v);
                assert(out@ + percent_bytes_from(bytes@, i + 3) =~= percent_bytes_from(bytes@, 0));
                i = i + 3;
                continue;
            }
        }
        assert(percent_bytes_from(bytes@, i as int) == seq![bytes@[i as int]] + percent_bytes_from(
            bytes@,
            i + 1,
        ));
        out.push(bytes[i]);
        assert(out@ + percent_bytes_from(bytes@, i + 1) =~= percent_bytes_from(bytes@, 0));
        i = i + 1;
    }
    assert(out@ =~= percent_bytes_from(bytes@, 0));
    lossy_string(&out)
}

} // verus!

verus! {

/// `s` without leading and trailing copies of `c`.
pub open spec fn trim_char(s: Seq<char>, c: char) -> Seq<char>
    decreases s.len(),
{
    if s.len() > 0 && s[0] == c {
        trim_char(s.subrange(1, s.len() as int), c)
    } else if s.len() > 0 && s.last() == c {
        trim_char(s.drop_last(), c)
    } else {
        s
    }
}

fn trim_char_span(v: &[char], from: usize, to: usize, c: char) -> (r: (usize, usize))
    requires
        from <= to <= v@.len(),
    ensures
        from <= r.0 <= r.1 <= to,
        v@.subrange(r.0 as int, r.1 as int) == trim_char(v@.subrange(from as int, to as int), c),
{
    let mut a = from;
    while a < to && v[a] == c
        invariant
            from <= a <= to <= v@.len(),
            trim_char(v@.subrange(from as int, to as int), c) == trim_char(
                v@.subrange(a as int, to as int),
                c,
            ),
        decreases to - a,
    {
        assert(v@.subrange(a as int, to as int).subrange(1, (to - a) as int) =~= v@.subrange(
            a + 1,
            to as int,
        ));
        a = a + 1;
    }
    let mut b = to;
    while b > a && v[b - 1] == c
        invariant
            from <= a <= b <= to <= v@.len(),
            a == b || v@[a as int] != c,
            trim_char(v@.subrange(from as int, to as int), c) == trim_char(
                v@.subrange(a as int, b as int),
                c,
            ),
        decreases b - a,
    {
        assert(v@.subrange(a as int, b as int).drop_last() =~= v@.subrange(a as int, b - 1));
        if b - 1 == a {
            assert(v@.subrange(a as int, b as int)[0] == c);
        }
        b = b - 1;
    }
    (a, b)
}

/// Whether `c` is an ASCII letter.
pub open spec fn is_ascii_alpha(c: char) -> bool {
    ('a' <= c && c <= 'z') || ('A' <= c && c <= 'Z')
}

/// A clipboard line with surrounding white space and quotes removed.
pub open spec fn clip_line(line: Seq<char>) -> Seq<char> {
    trim(trim_char(trim(line), '"'))
}

/// The path part of a cleaned clipboard line: after `file://`, with the slash
/// before a drive letter dropped; the whole line when it is no URL.
pub open spec fn clip_rest(l: Seq<char>) -> Seq<char> {
    if has_prefix(l, "file://"@) {
        let r = l.subrange(7, l.len() as int);
        if r.len() >= 3 && r[0] == '/' && is_ascii_alpha(r[1]) && r[2] == ':' {
            r.subrange(1, r.len() as int)
        } else {
            r
        }
    } else {
        l
    }
}

/// The path a clipboard line would name, before the platform's test of
/// whether it is absolute: the line cleaned of white space and quotes, the
/// `file://` taken off, percent-decoded. A web address, a JSON payload, or an
/// empty line names none.
pub open spec fn clipboard_path_candidate_spec(line: Seq<char>) -> Option<Seq<char>> {
    let l = clip_line(line);
    if l.len() == 0 || l[0] == '[' || l[0] == '{' {
        None
    } else if is_remote(l) && !has_prefix_ascii_ci(l, "file://"@) {
        None
    } else {
        let p = percent_decode_spec(clip_rest(l));
        if p.len() > 0 {
            Some(p)
        } else {
            None
        }
    }
}

/// Quoting a path, as "Copy as path" does, does not change the file it
/// names: a line and the same line in double quotes (with white space
/// around either) have the same candidate.
pub proof fn quotes_around_a_path_change_nothing(l: Seq<char>)
    requires
        l.len() > 0 ==> !is_ws(l[0]) && !is_ws(l.last()) && l[0] != '"' && l.last() != '"',
    ensures
        clipboard_path_candidate_spec(seq!['"'] + l + seq!['"']) == clipboard_path_candidate_spec(
            l,
        ),
{
    let q = seq!['"'] + l + seq!['"'];
    assert(q[0] == '"' && q.last() == '"');
    assert(crate::text::trim_start(q) == q);
    assert(crate::text::trim_end(q) == q);
    let t = q.subrange(1, q.len() as int);
    assert(t =~= l + seq!['"']);
    assert(t.drop_last() =~= l);
    if l.len() > 0 {
        assert(t[0] == l[0]);
        assert(trim_char(l, '"') == l);
        assert(trim_char(t, '"') == trim_char(l, '"'));
        assert(crate::text::trim_start(l) == l);
        assert(crate::text::trim_end(l) == l);
    } else {
        assert(t.subrange(1, t.len() as int) =~= l);
        assert(trim_char(t, '"') == trim_char(l, '"'));
    }
    assert(clip_line(q) == clip_line(l));
}

/// What an absolute path starts with on every platform: the root `/` (Unix),
/// or a Windows prefix, which begins with `\\` or with a drive letter and
/// `:`, or a root `\`.
pub open spec fn looks_rooted(p: Seq<char>) -> bool {
    p.len() > 0 && (p[0] == '/' || p[0] == '\\' || (p.len() >= 2 && is_ascii_alpha(p[0]) && p[1]
        == ':'))
}

/// `std::path::Path::is_absolute` on `path`. Its documentation: on Unix a
/// path is absolute when it starts with the root; on Windows when it has a
/// prefix (a drive such as `C:`, or a `\\` share) and a root. Which rule
/// applies depends on the machine, so only what holds under both is
/// claimed: an absolute path starts with `/`, `\\`, or a letter and `:`.
#[verifier::external_body]
fn path_is_absolute(path: &str) -> (r: bool)
    ensures
        r ==> looks_rooted(path@),
{
    std::path::Path::new(path).is_absolute()
}

fn clipboard_path_candidate_chars(v: &[char]) -> (r: Option<String>)
    ensures
        match r {
            Some(s) => clipboard_path_candidate_spec(v@) == Some(s@),
            None => clipboard_path_candidate_spec(v@) is None,
        },
{
    let (a0, b0) = trim_span(v, 0, v.len());
    assert(v@.subrange(0, v@.len() as int) =~= v@);
    let (a1, b1) = trim_char_span(v, a0, b0, '"');
    let (a, b) = trim_span(v, a1, b1);
    let l = sub_chars(v, a, b);
    assert(l@ == clip_line(v@));
    if l.len() == 0 || l[0] == '[' || l[0] == '{' {
        return None;
    }
    let file = chars_of("file://");
    if has_scheme_mark(&l) && !starts_with_ascii_ci(&l, &file) {
        return None;
    }
    proof {
        reveal_strlit("file://");
    }
    assert(l@.subrange(0, l@.len() as int) =~= l@);
    let rest = if starts_with_at(&l, 0, l.len(), &file) {
        if l.len() >= 10 && l[7] == '/' && (('a' <= l[8] && l[8] <= 'z') || ('A' <= l[8] && l[8]
            <= 'Z')) && l[9] == ':' {
            sub_chars(&l, 8, l.len())
        } else {
            sub_chars(&l, 7, l.len())
        }
    } else {
        sub_chars(&l, 0, l.len())
    };
    assert(rest@ == clip_rest(l@)) by {
        if has_prefix(l@, "file://"@) {
            let r = l@.subrange(7, l@.len() as int);
            if r.len() >= 3 && r[0] == '/' && is_ascii_alpha(r[1]) && r[2] == ':' {
                assert(r.subrange(1, r.len() as int) =~= l@.subrange(8, l@.len() as int));
            }
        }
    }
    let rs = string_from_chars(&rest);
    let p = percent_decode(rs.as_str());
    if !p.as_str().is_empty() {
        Some(p)
    } else {
        None
    }
}

/// A clipboard line checked against this platform's rule for absolute paths:
/// the candidate when the platform calls it absolute.
fn clipboard_text_path_chars(v: &[char]) -> (r: Option<String>)
    ensures
        clipboard_path_candidate_spec(v@) is None ==> r is None,
        r matches Some(s) ==> clipboard_path_candidate_spec(v@) == Some(s@) && looks_rooted(s@),
{
    match clipboard_path_candidate_chars(v) {
        Some(p) => if path_is_absolute(p.as_str()) {
            Some(p)
        } else {
            None
        },
        None => None,
    }
}

/// The path a clipboard line would name, before the platform's absolute
/// test; see `clipboard_path_candidate_spec`.
pub fn clipboard_path_candidate(line: &str) -> (r: Option<String>)
    ensures
        match r {
            Some(s) => clipboard_path_candidate_spec(line@) == Some(s@),
            None => clipboard_path_candidate_spec(line@) is None,
        },
{
    let v = chars_of(line);
    clipboard_path_candidate_chars(&v)
}

/// One clipboard line that names a file: an absolute path, or a `file://`
/// URL of one, by this platform's rule for absolute paths. Which candidates
/// that rule takes depends on the machine; what holds on every machine is
/// stated.
pub fn clipboard_text_path(line: &str) -> (r: Option<String>)
    ensures
        clipboard_path_candidate_spec(line@) is None ==> r is None,
        r matches Some(s) ==> clipboard_path_candidate_spec(line@) == Some(s@) && looks_rooted(s@),
{
    let v = chars_of(line);
    clipboard_text_path_chars(&v)
}

/// The spans of `ls` over `s` that hold more than white space.
pub open spec fn keep_filled(s: Seq<char>, ls: Seq<(int, int)>) -> Seq<(int, int)>
    decreases ls.len(),
{
    if ls.len() == 0 {
        Seq::empty()
    } else if trim(s.subrange(ls.last().0, ls.last().1)).len() > 0 {
        keep_filled(s, ls.drop_last()).push(ls.last())
    } else {
        keep_filled(s, ls.drop_last())
    }
}

/// The lines of `s` that hold more than white space.
pub open spec fn filled_lines(s: Seq<char>) -> Seq<(int, int)> {
    keep_filled(s, lines(s))
}

/// The candidate path of the `k`-th line of `s` that is not blank.
pub open spec fn line_candidate(s: Seq<char>, k: int) -> Option<Seq<char>> {
    clipboard_path_candidate_spec(s.subrange(filled_lines(s)[k].0, filled_lines(s)[k].1))
}

/// Whether every line of `s` that is not blank names a candidate path.
pub open spec fn all_lines_name_paths(s: Seq<char>) -> bool {
    forall|k: int| 0 <= k < filled_lines(s).len() ==> (#[trigger] line_candidate(s, k)) is Some
}

/// Whether clipboard text could be a list of files: one to sixty-four lines
/// that are not blank, each naming a candidate path.
pub open spec fn looks_like_paths_spec(s: Seq<char>) -> bool {
    0 < filled_lines(s).len() <= 64 && all_lines_name_paths(s)
}


/// The non-blank lines of `text`, each read as a file path, stopping at the
/// first that is not one.
fn scan_paths(text: &str) -> (r: (Vec<String>, bool))
    ensures
        !all_lines_name_paths(text@) ==> !r.1,
        r.1 ==> all_lines_name_paths(text@),
        r.1 ==> r.0@.len() == filled_lines(text@).len(),
        r.1 ==> forall|k: int|
            0 <= k < r.0@.len() ==> Some((#[trigger] r.0@[k])@) == line_candidate(text@, k)
                && looks_rooted(r.0@[k]@),
{
    let v = chars_of(text);
    let spans = line_spans(&v);
    let ghost s = v@;
    let ghost ls = lines(s);
    let mut out: Vec<String> = Vec::new();
    let mut k: usize = 0;
    assert(ls.take(0) =~= Seq::<(int, int)>::empty());
    while k < spans.len()
        invariant
            s == v@,
            s == text@,
            ls == lines(s),
            k <= spans@.len(),
            spans@.len() == ls.len(),
            forall|j: int|
                0 <= j < spans@.len() ==> (#[trigger] spans@[j]).0 as int == ls[j].0
                    && spans@[j].1 as int == ls[j].1,
            forall|j: int| 0 <= j < spans@.len() ==> (#[trigger] spans@[j]).0 <= spans@[j].1 <= v@.len(),
            out@.len() == keep_filled(s, ls.take(k as int)).len(),
            forall|j: int|
                0 <= j < out@.len() ==> Some((#[trigger] out@[j])@) == clipboard_path_candidate_spec(
                    s.subrange(keep_filled(s, ls.take(k as int))[j].0, keep_filled(
                        s,
                        ls.take(k as int),
                    )[j].1),
                ) && looks_rooted(out@[j]@),
        decreases spans.len() - k,
    {
        let (a, b) = spans[k];
        let ghost prev = keep_filled(s, ls.take(k as int));
        assert(ls.take(k + 1).drop_last() =~= ls.take(k as int));
        assert(ls.take(k + 1).last() == ls[k as int]);
        let (ta, tb) = trim_span(&v, a, b);
        if ta < tb {
            let line = sub_chars(&v, a, b);
            match clipboard_text_path_chars(&line) {
                Some(p) => {
                    out.push(p);
                    assert(keep_filled(s, ls.take(k + 1)) == prev.push(ls[k as int]));
                },
                None => {
                    return (out, false);
                },
            }
        } else {
            assert(keep_filled(s, ls.take(k + 1)) == prev);
        }
        k = k + 1;
    }
    assert(ls.take(k as int) =~= ls);
    assert forall|j: int| 0 <= j < filled_lines(text@).len() implies (#[trigger] line_candidate(
        text@,
        j,
    )) is Some by {
        assert(Some(out@[j]@) == clipboard_path_candidate_spec(
            s.subrange(keep_filled(s, ls.take(k as int))[j].0, keep_filled(s, ls.take(k as int))[j].1),
        ));
    }
    (out, true)
}

/// Whether clipboard text is a list of files rather than text to paste.
pub fn text_looks_like_paths(text: &str) -> (r: bool)
    ensures
        !looks_like_paths_spec(text@) ==> !r,
        r ==> looks_like_paths_spec(text@),
        r ==> forall|k: int|
            0 <= k < filled_lines(text@).len() ==> looks_rooted(#[trigger] line_candidate(text@, k)->0),
{
    let (paths, ok) = scan_paths(text);
    if ok {
        assert forall|k: int| 0 <= k < filled_lines(text@).len() implies looks_rooted(
            #[trigger] line_candidate(text@, k)->0,
        ) by {
            assert(Some(paths@[k]@) == line_candidate(text@, k));
        }
    }
    ok && paths.len() > 0 && paths.len() <= 64
}

/// The files a clipboard text names, line by line; `None` when a line that
/// is not blank names none, or no line names one. Whether the files exist
/// is the caller's question.
pub fn paths_from_text(text: &str) -> (r: Option<Vec<String>>)
    ensures
        !(filled_lines(text@).len() > 0 && all_lines_name_paths(text@)) ==> r is None,
        r matches Some(v) ==> filled_lines(text@).len() > 0 && all_lines_name_paths(text@)
            && v@.len() == filled_lines(text@).len() && forall|k: int|
            0 <= k < v@.len() ==> Some((#[trigger] v@[k])@) == line_candidate(text@, k)
                && looks_rooted(v@[k]@),
{
    let (paths, ok) = scan_paths(text);
    if ok && paths.len() > 0 {
        Some(paths)
    } else {
        None
    }
}

/// The rising edge of the paste chord (Ctrl+V): whether it was down last
/// frame.
#[derive(Debug, Clone, Copy)]
pub struct PasteChord {
    down: bool,
}

impl PasteChord {
    /// Whether the chord was held last frame.
    pub closed spec fn was_down(self) -> bool {
        self.down
    }

    pub fn new() -> (c: Self)
        ensures
            !c.was_down(),
    {
        PasteChord { down: false }
    }

    /// Feed this frame. `held` is `Some(shift)` while Ctrl+V is held (Shift
    /// asks for paste in place), `None` otherwise. Returns `Some(shift)` on
    /// the frame the chord goes down in a focused window; an unfocused
    /// window only tracks the key.
    pub fn take_edge(&mut self, focused: bool, held: Option<bool>) -> (edge: Option<bool>)
        ensures
            final(self).was_down() == held is Some,
            edge == (if focused && held is Some && !old(self).was_down() {
                held
            } else {
                None
            }),
    {
        let down = held.is_some();
        let was = self.down;
        self.down = down;
        if focused && down && !was {
            held
        } else {
            None
        }
    }
}

/// The file name of a pasted bitmap: `paste-<stamp>.png` on the first try,
/// `paste-<stamp>-<attempt>.png` after that.
pub open spec fn paste_file_name_spec(stamp: nat, attempt: nat) -> Seq<char> {
    let head = seq!['p', 'a', 's', 't', 'e', '-'] + decimal(stamp);
    let tail = seq!['.', 'p', 'n', 'g'];
    if attempt == 0 {
        head + tail
    } else {
        head + seq!['-'] + decimal(attempt) + tail
    }
}

/// Paste file names never collide: a name gives back the paste time and the
/// retry it was made for, so each retry of each paste gets its own file.
pub proof fn paste_names_never_collide(s1: nat, a1: nat, s2: nat, a2: nat)
    ensures
        paste_file_name_spec(s1, a1) == paste_file_name_spec(s2, a2) ==> s1 == s2 && a1 == a2,
{
    if paste_file_name_spec(s1, a1) == paste_file_name_spec(s2, a2) {
        let n = paste_file_name_spec(s1, a1);
        let d1 = decimal(s1);
        let d2 = decimal(s2);
        crate::text::decimal_facts(s1, s2);
        crate::text::decimal_facts(s2, s1);
        crate::text::decimal_facts(a1, a2);
        crate::text::decimal_facts(a2, a1);
        let p = seq!['p', 'a', 's', 't', 'e', '-'];
        let t = seq!['.', 'p', 'n', 'g'];
        // What follows the stamp's digits is `.` or `-`, never a digit.
        assert(n[6 + d1.len() as int] == (if a1 == 0 { '.' } else { '-' })) by {
            if a1 == 0 {
                assert(n == p + d1 + t);
            } else {
                assert(n == p + d1 + seq!['-'] + decimal(a1) + t);
            }
        }
        assert(n[6 + d2.len() as int] == (if a2 == 0 { '.' } else { '-' })) by {
            if a2 == 0 {
                assert(n == p + d2 + t);
            } else {
                assert(n == p + d2 + seq!['-'] + decimal(a2) + t);
            }
        }
        assert forall|i: int| 0 <= i < d1.len() implies n[6 + i] == d1[i] by {
            if a1 == 0 {
                assert(n == p + d1 + t);
            } else {
                assert(n == p + d1 + seq!['-'] + decimal(a1) + t);
            }
        }
        assert forall|i: int| 0 <= i < d2.len() implies n[6 + i] == d2[i] by {
            if a2 == 0 {
                assert(n == p + d2 + t);
            } else {
                assert(n == p + d2 + seq!['-'] + decimal(a2) + t);
            }
        }
        if d1.len() < d2.len() {
            assert(crate::text::is_digit(d2[d1.len() as int]));
            assert(false);
        }
        if d2.len() < d1.len() {
            assert(crate::text::is_digit(d1[d2.len() as int]));
            assert(false);
        }
        assert(d1 =~= d2);
        assert(s1 == s2);
        if a1 != 0 && a2 != 0 {
            let e1 = decimal(a1);
            let e2 = decimal(a2);
            let h = p + d1 + seq!['-'];
            assert(n == h + e1 + t);
            assert(paste_file_name_spec(s2, a2) == p + d2 + seq!['-'] + e2 + t);
            assert(n == h + e2 + t);
            assert(n.len() == h.len() + e1.len() + 4);
            assert(n.len() == h.len() + e2.len() + 4);
            assert(e1.len() == e2.len());
            assert forall|i: int| 0 <= i < e1.len() implies e1[i] == e2[i] by {
                assert(n[h.len() + i] == e1[i]);
                assert(n[h.len() + i] == e2[i]);
            }
            assert(e1 =~= e2);
        }
    }
}

/// See `paste_file_name_spec`: `stamp` is the paste time in milliseconds.
pub fn paste_file_name(stamp: u64, attempt: u32) -> (name: String)
    ensures
        name@ == paste_file_name_spec(stamp as nat, attempt as nat),
{
    let mut s = String::new();
    push_char(&mut s, 'p');
    push_char(&mut s, 'a');
    push_char(&mut s, 's');
    push_char(&mut s, 't');
    push_char(&mut s, 'e');
    push_char(&mut s, '-');
    let d = decimal_chars(stamp);
    push_chars(&mut s, &d);
    if attempt > 0 {
        push_char(&mut s, '-');
        let a = decimal_chars(attempt as u64);
        push_chars(&mut s, &a);
    }
    push_char(&mut s, '.');
    push_char(&mut s, 'p');
    push_char(&mut s, 'n');
    push_char(&mut s, 'g');
    proof {
        let head = seq!['p', 'a', 's', 't', 'e', '-'] + decimal(stamp as nat);
        let tail = seq!['.', 'p', 'n', 'g'];
        if attempt == 0 {
            assert(s@ =~= head + tail);
        } else {
            assert(s@ =~= head + seq!['-'] + decimal(attempt as nat) + tail);
        }
    }
    s
}

} // verus!
