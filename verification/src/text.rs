//! Character-level helpers shared by the locator, clipboard and escape code.

use vstd::prelude::*;

verus! {

/// `String::push`: appends one character.
#[verifier::external_body]
pub(crate) fn push_char(s: &mut String, c: char)
    ensures
        final(s)@ == old(s)@.push(c),
{
    s.push(c);
}

/// The characters of `s`, in order.
pub fn chars_of(s: &str) -> (v: Vec<char>)
    ensures
        v@ == s@,
{
    let mut v: Vec<char> = Vec::new();
    for c in it: s.chars()
        invariant
            v@ == it.seq().take(it.index() as int),
    {
        v.push(c);
    }
    v
}

/// A string holding exactly `v`.
pub fn string_from_chars(v: &[char]) -> (s: String)
    ensures
        s@ == v@,
{
    let mut s = String::new();
    let mut i: usize = 0;
    while i < v.len()
        invariant
            i <= v.len(),
            s@ == v@.take(i as int),
        decreases v.len() - i,
    {
        push_char(&mut s, v[i]);
        assert(v@.take(i as int).push(v@[i as int]) =~= v@.take(i as int + 1));
        i = i + 1;
    }
    assert(v@.take(v.len() as int) =~= v@);
    s
}

} // verus!

verus! {

/// The UTF-16 code units of one character: itself below U+10000, else a
/// surrogate pair.
pub open spec fn utf16_units(c: char) -> Seq<u16> {
    let v = c as u32;
    if v < 0x1_0000 {
        seq![v as u16]
    } else {
        seq![
            (0xD800 + (v - 0x1_0000) / 0x400) as u16,
            (0xDC00 + (v - 0x1_0000) % 0x400) as u16,
        ]
    }
}

/// The UTF-16 encoding of a character sequence.
pub open spec fn utf16_of(s: Seq<char>) -> Seq<u16>
    decreases s.len(),
{
    if s.len() == 0 {
        Seq::empty()
    } else {
        utf16_of(s.drop_last()) + utf16_units(s.last())
    }
}

/// UTF-16 of `value` followed by a terminating zero unit.
pub fn encode_utf16_nul(value: &str) -> (w: Vec<u16>)
    ensures
        w@ == utf16_of(value@).push(0u16),
{
    let chars = chars_of(value);
    let mut w: Vec<u16> = Vec::new();
    let mut i: usize = 0;
    while i < chars.len()
        invariant
            i <= chars.len(),
            w@ == utf16_of(chars@.take(i as int)),
        decreases chars.len() - i,
    {
        let c = chars[i];
        let v = c as u32;
        assert(chars@.take(i as int + 1).drop_last() =~= chars@.take(i as int));
        if v < 0x1_0000 {
            w.push(v as u16);
        } else {
            assert(v <= 0x10FFFF) by {
                vstd::utf8::char_is_scalar(c);
            }
            w.push((0xD800 + (v - 0x1_0000) / 0x400) as u16);
            w.push((0xDC00 + (v - 0x1_0000) % 0x400) as u16);
        }
        i = i + 1;
    }
    assert(chars@.take(chars.len() as int) =~= chars@);
    w.push(0u16);
    w
}

} // verus!

verus! {

/// Unicode `White_Space`, the set `char::is_whitespace` answers for.
pub open spec fn is_ws(c: char) -> bool {
    let v = c as u32;
    (0x09 <= v && v <= 0x0D) || v == 0x20 || v == 0x85 || v == 0xA0 || v == 0x1680 || (0x2000
        <= v && v <= 0x200A) || v == 0x2028 || v == 0x2029 || v == 0x202F || v == 0x205F || v
        == 0x3000
}

pub fn is_whitespace(c: char) -> (r: bool)
    ensures
        r == is_ws(c),
{
    let v = c as u32;
    (0x09 <= v && v <= 0x0D) || v == 0x20 || v == 0x85 || v == 0xA0 || v == 0x1680 || (0x2000
        <= v && v <= 0x200A) || v == 0x2028 || v == 0x2029 || v == 0x202F || v == 0x205F || v
        == 0x3000
}

/// `s` without its leading white space.
pub open spec fn trim_start(s: Seq<char>) -> Seq<char>
    decreases s.len(),
{
    if s.len() > 0 && is_ws(s[0]) {
        trim_start(s.subrange(1, s.len() as int))
    } else {
        s
    }
}

/// `s` without its trailing white space.
pub open spec fn trim_end(s: Seq<char>) -> Seq<char>
    decreases s.len(),
{
    if s.len() > 0 && is_ws(s.last()) {
        trim_end(s.drop_last())
    } else {
        s
    }
}

/// `s` without white space at either end, as `str::trim` gives it.
pub open spec fn trim(s: Seq<char>) -> Seq<char> {
    trim_end(trim_start(s))
}

/// The span `[a, b)` of `v` that `trim` keeps.
pub fn trim_span(v: &[char], from: usize, to: usize) -> (r: (usize, usize))
    requires
        from <= to <= v@.len(),
    ensures
        from <= r.0 <= r.1 <= to,
        v@.subrange(r.0 as int, r.1 as int) == trim(v@.subrange(from as int, to as int)),
{
    let mut a = from;
    while a < to && is_whitespace(v[a])
        invariant
            from <= a <= to <= v@.len(),
            trim_start(v@.subrange(from as int, to as int)) == trim_start(
                v@.subrange(a as int, to as int),
            ),
        decreases to - a,
    {
        assert(v@.subrange(a as int, to as int).subrange(1, (to - a) as int) =~= v@.subrange(
            a + 1,
            to as int,
        ));
        a = a + 1;
    }
    let mut b = to;
    while b > a && is_whitespace(v[b - 1])
        invariant
            from <= a <= b <= to <= v@.len(),
            trim_end(v@.subrange(a as int, to as int)) == trim_end(v@.subrange(a as int, b as int)),
        decreases b - a,
    {
        assert(v@.subrange(a as int, b as int).drop_last() =~= v@.subrange(a as int, b - 1));
        b = b - 1;
    }
    (a, b)
}

/// A copy of `v[a..b]`.
pub fn sub_chars(v: &[char], a: usize, b: usize) -> (r: Vec<char>)
    requires
        a <= b <= v@.len(),
    ensures
        r@ == v@.subrange(a as int, b as int),
{
    let mut r: Vec<char> = Vec::new();
    let mut i = a;
    while i < b
        invariant
            a <= i <= b <= v@.len(),
            r@ == v@.subrange(a as int, i as int),
        decreases b - i,
    {
        r.push(v[i]);
        assert(v@.subrange(a as int, i as int).push(v@[i as int]) =~= v@.subrange(
            a as int,
            i + 1,
        ));
        i = i + 1;
    }
    r
}

/// `c` with an ASCII capital turned into its small letter.
pub open spec fn ascii_lower(c: char) -> char {
    if 'A' <= c && c <= 'Z' {
        ((c as u32) + 32) as char
    } else {
        c
    }
}

pub fn to_ascii_lower(c: char) -> (r: char)
    ensures
        r == ascii_lower(c),
{
    if 'A' <= c && c <= 'Z' {
        ((c as u8) + 32) as char
    } else {
        c
    }
}

/// Whether `s` begins with `p`.
pub open spec fn has_prefix(s: Seq<char>, p: Seq<char>) -> bool {
    p.len() <= s.len() && s.subrange(0, p.len() as int) == p
}

/// Whether `s` begins with `p` once its ASCII capitals are made small.
pub open spec fn has_prefix_ascii_ci(s: Seq<char>, p: Seq<char>) -> bool {
    p.len() <= s.len() && forall|i: int| 0 <= i < p.len() ==> ascii_lower(#[trigger] s[i]) == p[i]
}

/// Whether `v[from..to]` begins with `p`.
pub fn starts_with_at(v: &[char], from: usize, to: usize, p: &[char]) -> (r: bool)
    requires
        from <= to <= v@.len(),
    ensures
        r == has_prefix(v@.subrange(from as int, to as int), p@),
{
    if p.len() > to - from {
        return false;
    }
    let mut i: usize = 0;
    while i < p.len()
        invariant
            i <= p@.len(),
            from + p@.len() <= to <= v@.len(),
            v@.len() == v.len(),
            forall|j: int| 0 <= j < i ==> v@[from + j] == p@[j],
        decreases p.len() - i,
    {
        if v[from + i] != p[i] {
            assert(v@.subrange(from as int, to as int).subrange(0, p@.len() as int)[i as int]
                != p@[i as int]);
            return false;
        }
        i = i + 1;
    }
    assert(v@.subrange(from as int, to as int).subrange(0, p@.len() as int) =~= p@);
    true
}

/// Whether `v`, with ASCII capitals made small, begins with `p`.
pub fn starts_with_ascii_ci(v: &[char], p: &[char]) -> (r: bool)
    ensures
        r == has_prefix_ascii_ci(v@, p@),
{
    if p.len() > v.len() {
        return false;
    }
    let mut i: usize = 0;
    while i < p.len()
        invariant
            i <= p@.len() <= v@.len(),
            forall|j: int| 0 <= j < i ==> ascii_lower(#[trigger] v@[j]) == p@[j],
        decreases p.len() - i,
    {
        if to_ascii_lower(v[i]) != p[i] {
            return false;
        }
        i = i + 1;
    }
    true
}

} // verus!

verus! {

/// Index of the first `'\n'` at or after `i`, or the length when there is none.
pub open spec fn line_end(s: Seq<char>, i: int) -> int
    decreases s.len() - i,
{
    if i >= s.len() {
        s.len() as int
    } else if s[i] == '\n' {
        i
    } else {
        line_end(s, i + 1)
    }
}

/// The spans of the lines of `s[start..]`, as `str::lines` yields them: split
/// at `'\n'`, a `'\r'` just before a `'\n'` dropped, no empty line after a
/// final line ending.
pub open spec fn lines_from(s: Seq<char>, start: int) -> Seq<(int, int)>
    decreases s.len() + 1 - start,
{
    if start < 0 || start >= s.len() {
        Seq::empty()
    } else {
        let e = line_end(s, start);
        proof {
            line_end_bounds(s, start);
        }
        let stop = if e < s.len() && e > start && s[e - 1] == '\r' {
            e - 1
        } else {
            e
        };
        seq![(start, stop)] + lines_from(s, e + 1)
    }
}

/// The line spans of `s`.
pub open spec fn lines(s: Seq<char>) -> Seq<(int, int)> {
    lines_from(s, 0)
}

pub proof fn line_end_bounds(s: Seq<char>, i: int)
    requires
        0 <= i,
    ensures
        i <= line_end(s, i) || i > s.len(),
        line_end(s, i) <= s.len(),
        line_end(s, i) < s.len() ==> s[line_end(s, i)] == '\n',
        forall|j: int| i <= j < line_end(s, i) ==> s[j] != '\n',
    decreases s.len() - i,
{
    if i < s.len() && s[i] != '\n' {
        line_end_bounds(s, i + 1);
    }
}

/// Every span of `lines_from(s, start)` lies inside `s`.
pub proof fn lines_from_spans(s: Seq<char>, start: int)
    requires
        0 <= start,
    ensures
        forall|k: int|
            0 <= k < lines_from(s, start).len() ==> start <= #[trigger] lines_from(s, start)[k].0
                <= lines_from(s, start)[k].1 <= s.len(),
    decreases s.len() + 1 - start,
{
    if start < s.len() {
        let e = line_end(s, start);
        line_end_bounds(s, start);
        lines_from_spans(s, e + 1);
        let stop = if e < s.len() && e > start && s[e - 1] == '\r' {
            e - 1
        } else {
            e
        };
        assert(lines_from(s, start) == seq![(start, stop)] + lines_from(s, e + 1));
    }
}

/// The spans of the lines of `v`.
pub fn line_spans(v: &[char]) -> (r: Vec<(usize, usize)>)
    ensures
        r@.len() == lines(v@).len(),
        forall|k: int|
            0 <= k < r@.len() ==> (#[trigger] r@[k]).0 as int == lines(v@)[k].0 && r@[k].1 as int
                == lines(v@)[k].1,
        forall|k: int| 0 <= k < r@.len() ==> (#[trigger] r@[k]).0 <= r@[k].1 <= v@.len(),
{
    let n = v.len();
    let ghost s = v@;
    let mut out: Vec<(usize, usize)> = Vec::new();
    let mut start: usize = 0;
    proof {
        lines_from_spans(s, 0);
    }
    while start < n
        invariant
            n == v@.len(),
            s == v@,
            start <= n,
            out@.len() + lines_from(s, start as int).len() == lines(s).len(),
            forall|k: int|
                0 <= k < out@.len() ==> (#[trigger] out@[k]).0 as int == lines(s)[k].0
                    && out@[k].1 as int == lines(s)[k].1,
            forall|k: int|
                0 <= k < lines_from(s, start as int).len() ==> #[trigger] lines_from(
                    s,
                    start as int,
                )[k] == lines(s)[out@.len() + k],
            forall|k: int| 0 <= k < out@.len() ==> (#[trigger] out@[k]).0 <= out@[k].1 <= n,
        decreases n - start,
    {
        let mut e = start;
        while e < n && v[e] != '\n'
            invariant
                start <= e <= n,
                n == v@.len(),
                s == v@,
                line_end(s, start as int) == line_end(s, e as int),
            decreases n - e,
        {
            e = e + 1;
        }
        let stop = if e < n && e > start && v[e - 1] == '\r' {
            e - 1
        } else {
            e
        };
        let ghost rest = lines_from(s, start as int);
        assert(rest == seq![(start as int, stop as int)] + lines_from(s, e + 1));
        assert(rest[0] == (start as int, stop as int));
        assert(lines(s)[out@.len() as int] == rest[0]);
        out.push((start, stop));
        assert forall|k: int| 0 <= k < lines_from(s, e + 1).len() implies #[trigger] lines_from(
            s,
            e + 1,
        )[k] == lines(s)[out@.len() + k] by {
            assert(lines_from(s, e + 1)[k] == rest[k + 1]);
        }
        if e >= n {
            assert(lines_from(s, e + 1).len() == 0);
            return out;
        }
        start = e + 1;
    }
    out
}

} // verus!

verus! {

/// The decimal digit for `d < 10`.
pub open spec fn digit_char(d: nat) -> char {
    ((d + 48) as u32) as char
}

/// `n` written in decimal, most significant digit first.
pub open spec fn decimal(n: nat) -> Seq<char>
    decreases n,
{
    if n < 10 {
        seq![digit_char(n)]
    } else {
        decimal(n / 10).push(digit_char(n % 10))
    }
}

/// Whether `c` is one of the digits `0`-`9`.
pub open spec fn is_digit(c: char) -> bool {
    '0' <= c && c <= '9'
}

/// Decimal writing is made of digits, is never empty, and names its number:
/// two numbers are written alike only when they are equal.
pub proof fn decimal_facts(a: nat, b: nat)
    ensures
        decimal(a).len() > 0,
        forall|i: int| 0 <= i < decimal(a).len() ==> is_digit(#[trigger] decimal(a)[i]),
        decimal(a) == decimal(b) ==> a == b,
    decreases a + b,
{
    if a >= 10 {
        decimal_facts(a / 10, 0);
        let r = decimal(a / 10);
        assert forall|i: int| 0 <= i < decimal(a).len() implies is_digit(#[trigger] decimal(a)[i]) by {
            if i < r.len() {
                assert(decimal(a)[i] == r[i]);
            } else {
                assert((((a % 10 + 48) as u32) as char) as u32 == a % 10 + 48);
            }
        }
    } else {
        assert((((a + 48) as u32) as char) as u32 == a + 48);
    }
    if decimal(a) == decimal(b) {
        let da = decimal(a);
        assert(da.last() == digit_char(a % 10)) by {
            if a >= 10 {
                assert(da == decimal(a / 10).push(digit_char(a % 10)));
            }
        }
        assert(da.last() == digit_char(b % 10)) by {
            if b >= 10 {
                assert(da == decimal(b / 10).push(digit_char(b % 10)));
            }
        }
        assert((((a % 10 + 48) as u32) as char) as u32 == a % 10 + 48);
        assert((((b % 10 + 48) as u32) as char) as u32 == b % 10 + 48);
        assert(a % 10 == b % 10);
        if a >= 10 && b >= 10 {
            decimal_facts(a / 10, b / 10);
            assert(decimal(a / 10) =~= da.drop_last());
            assert(decimal(b / 10) =~= da.drop_last());
        } else if a >= 10 {
            decimal_facts(a / 10, 0);
            assert(da.len() >= 2);
        } else if b >= 10 {
            decimal_facts(b / 10, 0);
            assert(decimal(b).len() >= 2);
        }
    }
}

/// `decimal(n)` left-padded with `'0'` to at least `width` characters.
pub open spec fn zero_padded(n: nat, width: nat) -> Seq<char> {
    let d = decimal(n);
    if d.len() < width {
        Seq::new((width - d.len()) as nat, |i: int| '0') + d
    } else {
        d
    }
}

/// Zero padding only adds leading zeros: the padded text is at least
/// `width` long, ends with the number's digits, and is all zeros before
/// them.
pub proof fn zero_padding_keeps_the_number(n: nat, width: nat)
    ensures
        zero_padded(n, width).len() == (if decimal(n).len() < width {
            width as int
        } else {
            decimal(n).len() as int
        }),
        zero_padded(n, width).skip(zero_padded(n, width).len() - decimal(n).len()) == decimal(n),
        forall|i: int|
            0 <= i < zero_padded(n, width).len() - decimal(n).len() ==> #[trigger] zero_padded(
                n,
                width,
            )[i] == '0',
{
    let d = decimal(n);
    let z = zero_padded(n, width);
    assert(z.skip(z.len() - d.len()) =~= d);
}

/// The decimal digits of `n`, most significant first.
pub fn decimal_chars(n: u64) -> (r: Vec<char>)
    ensures
        r@ == decimal(n as nat),
    decreases n,
{
    if n < 10 {
        let mut r: Vec<char> = Vec::new();
        r.push(((n as u8) + 48) as char);
        assert(r@ =~= seq![digit_char(n as nat)]);
        r
    } else {
        let mut r = decimal_chars(n / 10);
        r.push((((n % 10) as u8) + 48) as char);
        assert(r@ =~= decimal((n / 10) as nat).push(digit_char((n % 10) as nat)));
        r
    }
}

/// Appends the characters of `v` to `s`.
pub fn push_chars(s: &mut String, v: &[char])
    ensures
        final(s)@ == old(s)@ + v@,
{
    let mut i: usize = 0;
    while i < v.len()
        invariant
            i <= v@.len(),
            s@ == old(s)@ + v@.take(i as int),
        decreases v.len() - i,
    {
        push_char(s, v[i]);
        assert(old(s)@ + v@.take(i as int) + seq![v@[i as int]] =~= old(s)@ + v@.take(i + 1));
        i = i + 1;
    }
    assert(v@.take(v@.len() as int) =~= v@);
}

/// Appends `n` in decimal, zero-padded to at least `width` digits.
pub fn push_padded(s: &mut String, n: u64, width: usize)
    ensures
        final(s)@ == old(s)@ + zero_padded(n as nat, width as nat),
{
    let d = decimal_chars(n);
    if d.len() < width {
        let mut k: usize = 0;
        let ghost z = Seq::new((width - d@.len()) as nat, |i: int| '0');
        while k < width - d.len()
            invariant
                d@ == decimal(n as nat),
                d@.len() < width,
                k <= width - d@.len(),
                z == Seq::new((width - d@.len()) as nat, |i: int| '0'),
                s@ == old(s)@ + z.take(k as int),
            decreases width - d.len() - k,
        {
            push_char(s, '0');
            assert(old(s)@ + z.take(k as int) + seq!['0'] =~= old(s)@ + z.take(k + 1));
            k = k + 1;
        }
        assert(z.take(k as int) =~= z);
        push_chars(s, &d);
        assert(old(s)@ + z + d@ =~= old(s)@ + (z + d@));
    } else {
        push_chars(s, &d);
    }
}

/// Appends the characters of `t`.
pub fn push_str(s: &mut String, t: &str)
    ensures
        final(s)@ == old(s)@ + t@,
{
    let v = chars_of(t);
    push_chars(s, &v);
}

} // verus!

verus! {

/// The characters `f` gives for each character of `s`, in order.
pub open spec fn flat_map_chars(s: Seq<char>, f: spec_fn(char) -> Seq<char>) -> Seq<char>
    decreases s.len(),
{
    if s.len() == 0 {
        Seq::empty()
    } else {
        flat_map_chars(s.drop_last(), f) + f(s.last())
    }
}

/// Mapping each character to itself changes nothing.
pub proof fn flat_map_chars_identity(s: Seq<char>, f: spec_fn(char) -> Seq<char>)
    requires
        forall|i: int| 0 <= i < s.len() ==> f(#[trigger] s[i]) == seq![s[i]],
    ensures
        flat_map_chars(s, f) == s,
    decreases s.len(),
{
    if s.len() > 0 {
        let t = s.drop_last();
        assert forall|i: int| 0 <= i < t.len() implies f(#[trigger] t[i]) == seq![t[i]] by {
            assert(t[i] == s[i]);
        }
        flat_map_chars_identity(t, f);
        assert(f(s[s.len() - 1]) == seq![s[s.len() - 1]]);
        assert(s =~= t.push(s.last()));
    }
}

/// A character that no piece holds is nowhere in the mapped text.
pub proof fn flat_map_chars_avoids(s: Seq<char>, f: spec_fn(char) -> Seq<char>, bad: spec_fn(char) -> bool)
    requires
        forall|c: char, j: int| 0 <= j < f(c).len() ==> !bad(#[trigger] f(c)[j]),
    ensures
        forall|i: int| 0 <= i < flat_map_chars(s, f).len() ==> !bad(#[trigger] flat_map_chars(s, f)[i]),
    decreases s.len(),
{
    if s.len() > 0 {
        flat_map_chars_avoids(s.drop_last(), f, bad);
        let r = flat_map_chars(s.drop_last(), f);
        let p = f(s.last());
        let m = flat_map_chars(s, f);
        assert forall|i: int| 0 <= i < m.len() implies !bad(#[trigger] m[i]) by {
            if i < r.len() {
                assert(m[i] == r[i]);
            } else {
                assert(m[i] == p[i - r.len()]);
            }
        }
    }
}

/// One step of a `flat_map_chars` over a growing prefix.
pub proof fn flat_map_chars_step(s: Seq<char>, i: int, f: spec_fn(char) -> Seq<char>)
    requires
        0 <= i < s.len(),
    ensures
        flat_map_chars(s.take(i + 1), f) == flat_map_chars(s.take(i), f) + f(s[i]),
{
    assert(s.take(i + 1).drop_last() =~= s.take(i));
}

/// Lower-case hexadecimal digit for `d < 16`.
pub open spec fn hex_lower(d: nat) -> char {
    if d < 10 {
        ((d + 48) as u32) as char
    } else {
        ((d + 87) as u32) as char
    }
}

pub fn hex_lower_char(d: u8) -> (c: char)
    requires
        d < 16,
    ensures
        c == hex_lower(d as nat),
{
    if d < 10 {
        (d + 48) as char
    } else {
        (d + 87) as char
    }
}

} // verus!
