//! Clipboard bitmaps: a DIB, DIBV5, or BMP file read into RGBA pixels, then
//! written as PNG bytes the workbook can link to. 24- and 32-bit
//! uncompressed bitmaps only: that is what screenshots and "Copy image"
//! actually put on the clipboard.

use vstd::prelude::*;
use image::ImageEncoder;
use crate::clipboard::{MAX_PASTE_PIXELS, MAX_PASTE_PNG_BYTES};

verus! {

/// Little-endian 16-bit value at `i`.
pub open spec fn u16le(d: Seq<u8>, i: int) -> int {
    d[i] + 256 * d[i + 1]
}

/// Little-endian 32-bit value at `i`.
pub open spec fn u32le(d: Seq<u8>, i: int) -> int {
    d[i] + 256 * d[i + 1] + 65536 * d[i + 2] + 16777216 * d[i + 3]
}

/// Little-endian two's-complement 32-bit value at `i`.
pub open spec fn i32le(d: Seq<u8>, i: int) -> int {
    let u = u32le(d, i);
    if u < 0x8000_0000 {
        u
    } else {
        u - 0x1_0000_0000
    }
}

fn read_u16(d: &[u8], i: usize) -> (r: u16)
    requires
        i + 2 <= d@.len(),
    ensures
        r as int == u16le(d@, i as int),
{
    d[i] as u16 + (d[i + 1] as u16) * 256
}

fn read_u32(d: &[u8], i: usize) -> (r: u32)
    requires
        i + 4 <= d@.len(),
    ensures
        r as int == u32le(d@, i as int),
{
    d[i] as u32 + (d[i + 1] as u32) * 256 + (d[i + 2] as u32) * 65536 + (d[i + 3] as u32)
        * 16777216
}

fn read_i32(d: &[u8], i: usize) -> (r: i32)
    requires
        i + 4 <= d@.len(),
    ensures
        r as int == i32le(d@, i as int),
{
    let u = read_u32(d, i);
    if u < 0x8000_0000 {
        u as i32
    } else {
        ((u - 0x8000_0000) as i32) - 0x7FFF_FFFF - 1
    }
}

/// Whether `rows` rows of `stride` bytes from `off` fit in `len` bytes.
pub open spec fn fits(len: int, off: int, rows: int, stride: int) -> bool {
    off + rows * stride <= len
}

/// Whether `rows` rows of `stride` bytes starting at `off` fit in `data`.
/// An offset or a size that overflows does not fit.
pub fn dib_fits(data: &[u8], off: usize, rows: usize, stride: usize) -> (r: bool)
    ensures
        r == fits(data@.len() as int, off as int, rows as int, stride as int),
{
    let len = data.len();
    assert(len as int == data@.len());
    match rows.checked_mul(stride) {
        Some(n) => {
            assert(n as int == rows as int * stride as int);
            match off.checked_add(n) {
                Some(end) => end <= len,
                None => {
                    assert(off as int + n as int > usize::MAX);
                    false
                },
            }
        },
        None => {
            assert(rows as int * stride as int > usize::MAX);
            assert(off as int + rows as int * stride as int > data@.len());
            false
        },
    }
}

/// The number of set bits among the low `n` bits of `x`.
pub open spec fn low_bits(x: u32, n: nat) -> nat
    decreases n,
{
    if n == 0 {
        0
    } else {
        (x % 2) as nat + low_bits(x / 2, (n - 1) as nat)
    }
}

/// `u32::count_ones`.
pub open spec fn popcount(x: u32) -> nat {
    low_bits(x, 32)
}

/// `2^n`.
pub open spec fn two_pow(n: nat) -> nat
    decreases n,
{
    if n == 0 {
        1
    } else {
        2 * two_pow((n - 1) as nat)
    }
}

proof fn low_bits_nonzero(x: u32, n: nat)
    requires
        x != 0,
        x < two_pow(n),
    ensures
        low_bits(x, n) >= 1,
    decreases n,
{
    if n == 0 {
    } else if x % 2 == 0 {
        assert(x / 2 != 0);
        low_bits_nonzero(x / 2, (n - 1) as nat);
    }
}

fn count_ones(x: u32) -> (c: u32)
    ensures
        c as nat == popcount(x),
        c <= 32,
{
    let mut v = x;
    let mut c: u32 = 0;
    let mut i: u32 = 0;
    while i < 32
        invariant
            i <= 32,
            c <= i,
            c as nat + low_bits(v, (32 - i) as nat) == popcount(x),
        decreases 32 - i,
    {
        c = c + v % 2;
        v = v / 2;
        i = i + 1;
    }
    c
}

/// One colour channel of a pixel word under a bit mask, scaled to eight
/// bits: the masked bits shifted down, then their top eight bits, or, for
/// a mask narrower than eight bits, the value stretched to 0..=255 (with the
/// product taken modulo 2^32).
pub open spec fn mask_channel_spec(pixel: u32, mask: u32) -> u8 {
    if mask == 0 {
        0
    } else {
        let shift = mask.trailing_zeros();
        let bits = popcount(mask);
        let value = (pixel & mask) >> shift;
        if bits >= 8 {
            (value >> ((bits - 8) as u32)) as u8
        } else {
            let max = ((1u32 << (bits as u32)) - 1) as u32;
            ((((value as nat * 255) % 0x1_0000_0000) as u32) / max) as u8
        }
    }
}

proof fn low_bits_of_zero(n: nat)
    ensures
        low_bits(0, n) == 0,
    decreases n,
{
    if n > 0 {
        low_bits_of_zero((n - 1) as nat);
    }
}

/// Eight set bits, shifted up `k` places, count eight among any `k + 8` or
/// more low bits.
proof fn low_bits_of_shifted_byte(x: u32, k: nat, n: nat)
    requires
        x as nat == 255 * two_pow(k),
        n >= k + 8,
    ensures
        low_bits(x, n) == 8,
    decreases k,
{
    if k == 0 {
        reveal_with_fuel(low_bits, 9);
        low_bits_of_zero((n - 8) as nat);
        assert(x == 255);
        assert(low_bits(0, (n - 8) as nat) == 0);
    } else {
        let h = two_pow((k - 1) as nat);
        assert(x as nat == 2 * (255 * h)) by (nonlinear_arith)
            requires
                x as nat == 255 * two_pow(k),
                two_pow(k) == 2 * h,
        ;
        low_bits_of_shifted_byte((x / 2) as u32, (k - 1) as nat, (n - 1) as nat);
    }
}

proof fn byte_mask_shift(m: u32, k: u32)
    requires
        k == 0 || k == 8 || k == 16 || k == 24,
        m == 0xFFu32 << k,
    ensures
        m.trailing_zeros() == k,
{
    vstd::std_specs::bits::axiom_u32_trailing_zeros(m);
    let t = m.trailing_zeros();
    assert(m != 0) by (bit_vector)
        requires
            k == 0 || k == 8 || k == 16 || k == 24,
            m == 0xFFu32 << k,
    ;
    if t < k {
        assert((m >> t) & 1u32 == 0u32) by (bit_vector)
            requires
                k == 0 || k == 8 || k == 16 || k == 24,
                m == 0xFFu32 << k,
                t < k,
        ;
    }
    if t > k {
        assert((m >> k) & 1u32 == 1u32) by (bit_vector)
            requires
                k == 0 || k == 8 || k == 16 || k == 24,
                m == 0xFFu32 << k,
        ;
    }
}

/// A bit-field bitmap with the usual byte masks reads each channel straight
/// from its byte: under mask `0xFF << k` the channel is byte `k / 8` of the
/// pixel word, whatever the other bytes hold.
pub proof fn a_byte_mask_reads_its_byte(pixel: u32, k: u32)
    requires
        k == 0 || k == 8 || k == 16 || k == 24,
    ensures
        mask_channel_spec(pixel, 0xFFu32 << k) == ((pixel >> k) & 0xFFu32) as u8,
{
    let m = 0xFFu32 << k;
    byte_mask_shift(m, k);
    assert(m as nat == 255 * two_pow(k as nat)) by {
        reveal_with_fuel(two_pow, 25);
        if k == 0 {
            assert(m == 0xFFu32) by (bit_vector) requires m == 0xFFu32 << k, k == 0;
        } else if k == 8 {
            assert(m == 0xFF00u32) by (bit_vector) requires m == 0xFFu32 << k, k == 8;
        } else if k == 16 {
            assert(m == 0xFF0000u32) by (bit_vector) requires m == 0xFFu32 << k, k == 16;
        } else {
            assert(m == 0xFF000000u32) by (bit_vector) requires m == 0xFFu32 << k, k == 24;
        }
    }
    low_bits_of_shifted_byte(m, k as nat, 32);
    assert(m != 0) by (bit_vector)
        requires
            k == 0 || k == 8 || k == 16 || k == 24,
            m == 0xFFu32 << k,
    ;
    let v = (pixel & m) >> k;
    assert((v >> 0u32) as u8 == ((pixel >> k) & 0xFFu32) as u8) by (bit_vector)
        requires
            k == 0 || k == 8 || k == 16 || k == 24,
            m == 0xFFu32 << k,
            v == (pixel & m) >> k,
    ;
}

pub fn mask_channel(pixel: u32, mask: u32) -> (c: u8)
    ensures
        c == mask_channel_spec(pixel, mask),
{
    if mask == 0 {
        return 0;
    }
    let shift = mask.trailing_zeros();
    let bits = count_ones(mask);
    proof {
        vstd::std_specs::bits::axiom_u32_trailing_zeros(mask);
        assert(two_pow(32) == 0x1_0000_0000) by {
            reveal_with_fuel(two_pow, 33);
        }
        low_bits_nonzero(mask, 32);
    }
    let value = (pixel & mask) >> shift;
    if bits >= 8 {
        (value >> (bits - 8)) as u8
    } else {
        assert(1u32 << bits >= 1) by (bit_vector)
            requires
                bits < 8,
        ;
        assert(1u32 << bits >= 2) by (bit_vector)
            requires
                1 <= bits < 8,
        ;
        let max = (1u32 << bits) - 1;
        (value.wrapping_mul(255) / max) as u8
    }
}

/// Where a clipboard bitmap's pixels are and how to read them.
#[derive(Clone, Copy)]
pub struct DibLayout {
    pub width: u32,
    pub height: u32,
    /// Rows stored top row first (a negative height in the header).
    pub top_down: bool,
    /// Bytes per pixel: 3 or 4.
    pub bpp: usize,
    /// Bytes per stored row, a multiple of four.
    pub stride: usize,
    /// Red, green, blue, and alpha masks of a `BI_BITFIELDS` bitmap.
    pub masks: Option<(u32, u32, u32, u32)>,
    /// Offset of the pixel array in the clipboard data.
    pub base: usize,
}

/// How the header of clipboard `data` lays out its pixels, or `None` when
/// the data is not a bitmap this paste takes. `data` is a BMP file when it
/// starts with `BM` and holds at least a file header; its pixel offset then
/// comes from that header. Otherwise it is a bare DIB.
pub open spec fn dib_layout_spec(d: Seq<u8>) -> Option<DibLayout> {
    let bmp = d.len() >= 14 && d[0] == 0x42 && d[1] == 0x4D;
    let o: int = if bmp { 14 } else { 0 };
    let dl = d.len() - o;
    if bmp && (u32le(d, 10) < 14 || u32le(d, 10) > d.len()) {
        None
    } else if dl < 40 {
        None
    } else {
        let bi = u32le(d, o);
        let w = i32le(d, o + 4);
        let hr = i32le(d, o + 8);
        let bits = u16le(d, o + 14);
        let comp = u32le(d, o + 16);
        if bi < 40 || bi > dl {
            None
        } else if w <= 0 || hr == 0 || hr == -0x8000_0000 {
            None
        } else {
            let h = if hr < 0 { -hr } else { hr };
            if w * h > MAX_PASTE_PIXELS {
                None
            } else if bits != 24 && bits != 32 {
                None
            } else if comp != 0 && comp != 3 {
                None
            } else if comp == 3 && (dl < 52 || u32le(d, o + 40) == 0 || u32le(d, o + 44) == 0
                || u32le(d, o + 48) == 0) {
                None
            } else {
                let bpp = bits / 8;
                let stride = (w * bpp + 3) / 4 * 4;
                let poff = if bmp {
                    u32le(d, 10) - 14
                } else if comp == 3 && bi == 40 {
                    if fits(dl, 56, h, stride) && !fits(dl, 52, h, stride) {
                        56
                    } else {
                        52
                    }
                } else {
                    bi
                };
                if !fits(dl, poff, h, stride) {
                    None
                } else {
                    Some(
                        DibLayout {
                            width: w as u32,
                            height: h as u32,
                            top_down: hr < 0,
                            bpp: bpp as usize,
                            stride: stride as usize,
                            masks: if comp == 3 {
                                Some(
                                    (
                                        u32le(d, o + 40) as u32,
                                        u32le(d, o + 44) as u32,
                                        u32le(d, o + 48) as u32,
                                        if bi >= 56 && dl >= 56 {
                                            u32le(d, o + 52) as u32
                                        } else {
                                            0u32
                                        },
                                    ),
                                )
                            } else {
                                None
                            },
                            base: (o + poff) as usize,
                        },
                    )
                }
            }
        }
    }
}

/// Where a bitmap's info header starts: after the 14-byte file header of a
/// `BM` file, else at the start.
pub open spec fn header_at(d: Seq<u8>) -> int {
    if d.len() >= 14 && d[0] == 0x42 && d[1] == 0x4D {
        14
    } else {
        0
    }
}

/// What the header says is what the layout holds: the width, the height
/// without its sign, rows stored top first exactly when the height is
/// negative, bytes per pixel from the bit count, and bit masks exactly for a
/// `BI_BITFIELDS` bitmap. A header with a width not above zero, a zero
/// height, a bit count other than 24 or 32, or a compression other than none
/// or bit fields is refused.
pub proof fn the_header_decides_the_layout(d: Seq<u8>)
    ensures
        d.len() - header_at(d) >= 40 ==> ({
            let o = header_at(d);
            let w = i32le(d, o + 4);
            let hr = i32le(d, o + 8);
            let bits = u16le(d, o + 14);
            let comp = u32le(d, o + 16);
            &&& (w <= 0 || hr == 0 || (bits != 24 && bits != 32) || (comp != 0 && comp != 3))
                ==> dib_layout_spec(d) is None
            &&& dib_layout_spec(d) matches Some(l) ==> (l.width == w && l.height == (if hr < 0 {
                -hr
            } else {
                hr
            }) && l.top_down == (hr < 0) && l.bpp * 8 == bits && (l.masks is Some <==> comp == 3))
        }),
        d.len() - header_at(d) < 40 ==> dib_layout_spec(d) is None,
{
}

/// What every layout the header check accepts satisfies.
pub open spec fn layout_ok(d: Seq<u8>, l: DibLayout) -> bool {
    &&& 0 < l.width && 0 < l.height
    &&& l.width * l.height <= MAX_PASTE_PIXELS
    &&& (l.bpp == 3 || l.bpp == 4)
    &&& l.stride == (l.width * l.bpp + 3) / 4 * 4
    &&& l.base + l.height * l.stride <= d.len()
}

pub proof fn layout_spec_ok(d: Seq<u8>)
    requires
        d.len() <= usize::MAX,
    ensures
        dib_layout_spec(d) matches Some(l) ==> layout_ok(d, l),
{
    if let Some(l) = dib_layout_spec(d) {
        let bmp = d.len() >= 14 && d[0] == 0x42 && d[1] == 0x4D;
        let o: int = if bmp { 14 } else { 0 };
        let w = i32le(d, o + 4);
        let hr = i32le(d, o + 8);
        let h = if hr < 0 { -hr } else { hr };
        let bpp = u16le(d, o + 14) / 8;
        assert(0 < w < 0x8000_0000 && 0 < h < 0x8000_0000);
        assert(w * h <= MAX_PASTE_PIXELS);
        assert(w <= MAX_PASTE_PIXELS) by (nonlinear_arith)
            requires
                w * h <= MAX_PASTE_PIXELS,
                h >= 1,
        ;
        assert(l.width == w && l.height == h);
        assert(bpp == 3 || bpp == 4);
        assert(0 <= w * bpp <= 4 * w) by {
            if bpp == 3 {
                assert(w * bpp == 3 * w);
            } else {
                assert(w * bpp == 4 * w);
            }
        }
        assert(l.bpp == bpp);
        assert(l.stride == (w * bpp + 3) / 4 * 4);
    }
}

/// The stored row that holds output row `y`.
pub open spec fn src_row(l: DibLayout, y: int) -> int {
    if l.top_down {
        y
    } else {
        l.height - 1 - y
    }
}

/// Offset of the first byte of output pixel `(x, y)`.
pub open spec fn px_offset(l: DibLayout, y: int, x: int) -> int {
    l.base + src_row(l, y) * l.stride + x * l.bpp
}

/// The pixel's bytes as a little-endian word, missing high bytes zero.
pub open spec fn px_word(d: Seq<u8>, i: int, bpp: int) -> u32 {
    (d[i] + 256 * d[i + 1] + 65536 * d[i + 2] + if bpp == 4 {
        16777216 * d[i + 3]
    } else {
        0
    }) as u32
}

/// The pixel whose bytes start at `i`, as RGBA, before the opaque-alpha rule.
pub open spec fn pixel_at(d: Seq<u8>, l: DibLayout, i: int) -> Seq<u8> {
    match l.masks {
        Some((mr, mg, mb, ma)) => {
            let v = px_word(d, i, l.bpp as int);
            seq![
                mask_channel_spec(v, mr),
                mask_channel_spec(v, mg),
                mask_channel_spec(v, mb),
                if ma == 0 {
                    255u8
                } else {
                    mask_channel_spec(v, ma)
                },
            ]
        },
        None => if l.bpp == 4 {
            seq![d[i + 2], d[i + 1], d[i], d[i + 3]]
        } else {
            seq![d[i + 2], d[i + 1], d[i], 255u8]
        },
    }
}

/// Output pixel `(x, y)` as RGBA, before the opaque-alpha rule.
pub open spec fn pixel_rgba(d: Seq<u8>, l: DibLayout, y: int, x: int) -> Seq<u8> {
    pixel_at(d, l, px_offset(l, y, x))
}

/// The first `n` pixels of output row `y`.
pub open spec fn raw_row(d: Seq<u8>, l: DibLayout, y: int, n: int) -> Seq<u8>
    decreases n,
{
    if n <= 0 {
        Seq::empty()
    } else {
        raw_row(d, l, y, n - 1) + pixel_rgba(d, l, y, n - 1)
    }
}

/// The first `n` output rows, top row first.
pub open spec fn raw_rows(d: Seq<u8>, l: DibLayout, n: int) -> Seq<u8>
    decreases n,
{
    if n <= 0 {
        Seq::empty()
    } else {
        raw_rows(d, l, n - 1) + raw_row(d, l, n - 1, l.width as int)
    }
}

/// Whether every alpha byte of an RGBA sequence is zero.
pub open spec fn alpha_all_zero(s: Seq<u8>) -> bool {
    forall|i: int| 0 <= i < s.len() && i % 4 == 3 ==> s[i] == 0
}

/// `s` with every alpha byte set to 255.
pub open spec fn opaque(s: Seq<u8>) -> Seq<u8> {
    Seq::new(s.len(), |i: int| if i % 4 == 3 { 255u8 } else { s[i] })
}

/// The RGBA pixels of a bitmap with layout `l`. A plain 32-bit bitmap whose
/// alpha bytes are all zero stores unused alpha, so it pastes opaque.
pub open spec fn dib_rgba_spec(d: Seq<u8>, l: DibLayout) -> Seq<u8> {
    let raw = raw_rows(d, l, l.height as int);
    if l.bpp == 4 && l.masks is None && alpha_all_zero(raw) {
        opaque(raw)
    } else {
        raw
    }
}

proof fn raw_row_facts(d: Seq<u8>, l: DibLayout, y: int, n: int)
    requires
        n >= 0,
    ensures
        raw_row(d, l, y, n).len() == 4 * n,
        forall|x: int, c: int|
            0 <= x < n && 0 <= c < 4 ==> #[trigger] raw_row(d, l, y, n)[4 * x + c] == pixel_rgba(
                d,
                l,
                y,
                x,
            )[c],
    decreases n,
{
    if n > 0 {
        raw_row_facts(d, l, y, n - 1);
        assert(pixel_rgba(d, l, y, n - 1).len() == 4);
        let r = raw_row(d, l, y, n);
        assert forall|x: int, c: int| 0 <= x < n && 0 <= c < 4 implies #[trigger] r[4 * x + c]
            == pixel_rgba(d, l, y, x)[c] by {
            if x < n - 1 {
                assert(r[4 * x + c] == raw_row(d, l, y, n - 1)[4 * x + c]);
            } else {
                assert(r[4 * x + c] == pixel_rgba(d, l, y, n - 1)[c]);
            }
        }
    }
}

proof fn raw_rows_facts(d: Seq<u8>, l: DibLayout, n: int)
    requires
        n >= 0,
    ensures
        raw_rows(d, l, n).len() == 4 * l.width * n,
        forall|y: int, x: int, c: int|
            0 <= y < n && 0 <= x < l.width && 0 <= c < 4 ==> #[trigger] raw_rows(d, l, n)[4 * (y
                * l.width + x) + c] == pixel_rgba(d, l, y, x)[c],
    decreases n,
{
    let w = l.width as int;
    if n > 0 {
        raw_rows_facts(d, l, n - 1);
        raw_row_facts(d, l, n - 1, w);
        let prev = raw_rows(d, l, n - 1);
        let r = raw_rows(d, l, n);
        assert(4 * w * n == 4 * w * (n - 1) + 4 * w) by (nonlinear_arith);
        assert forall|y: int, x: int, c: int| 0 <= y < n && 0 <= x < w && 0 <= c < 4 implies #[trigger] r[4
            * (y * w + x) + c] == pixel_rgba(d, l, y, x)[c] by {
            if y < n - 1 {
                assert(4 * (y * w + x) + c < 4 * w * (n - 1)) by (nonlinear_arith)
                    requires
                        0 <= y < n - 1,
                        0 <= x < w,
                        0 <= c < 4,
                ;
                assert(r[4 * (y * w + x) + c] == prev[4 * (y * w + x) + c]);
            } else {
                assert(4 * (y * w + x) + c == 4 * w * (n - 1) + (4 * x + c)) by (nonlinear_arith)
                    requires
                        y == n - 1,
                ;
                assert(r[4 * (y * w + x) + c] == raw_row(d, l, n - 1, w)[4 * x + c]);
            }
        }
    }
}

/// How a plain (no bit masks) bitmap's bytes become RGBA pixels: the output
/// holds `width * height` pixels, rows top first, and output pixel `(x, y)`
/// comes from stored row `y` of a top-down bitmap or row `height - 1 - y` of
/// a bottom-up one, its blue, green, red bytes swapped into red, green,
/// blue; alpha is the stored fourth byte, or opaque for a 24-bit pixel or a
/// 32-bit bitmap whose alpha bytes are all zero.
pub proof fn stored_rows_become_top_down_rgba(d: Seq<u8>, l: DibLayout, y: int, x: int)
    requires
        l.masks is None,
        0 <= y < l.height,
        0 <= x < l.width,
    ensures
        dib_rgba_spec(d, l).len() == 4 * l.width * l.height,
        ({
            let px = dib_rgba_spec(d, l);
            let i = 4 * (y * l.width + x);
            let row = if l.top_down {
                y
            } else {
                l.height - 1 - y
            };
            let off = l.base + row * l.stride + x * l.bpp;
            &&& px[i] == d[off + 2]
            &&& px[i + 1] == d[off + 1]
            &&& px[i + 2] == d[off]
            &&& px[i + 3] == (if l.bpp == 4 && !alpha_all_zero(raw_rows(d, l, l.height as int)) {
                d[off + 3]
            } else {
                255u8
            })
        }),
{
    raw_rows_facts(d, l, l.height as int);
    let raw = raw_rows(d, l, l.height as int);
    let i = 4 * (y * l.width + x);
    assert(raw[i + 0] == pixel_rgba(d, l, y, x)[0]);
    assert(raw[i + 1] == pixel_rgba(d, l, y, x)[1]);
    assert(raw[i + 2] == pixel_rgba(d, l, y, x)[2]);
    assert(raw[i + 3] == pixel_rgba(d, l, y, x)[3]);
    assert(0 <= i && i + 3 < 4 * l.width * l.height) by (nonlinear_arith)
        requires
            i == 4 * (y * l.width + x),
            0 <= y < l.height,
            0 <= x < l.width,
    ;
    if l.bpp == 4 && alpha_all_zero(raw) {
        assert((i + 3) % 4 == 3 && i % 4 == 0 && (i + 1) % 4 == 1 && (i + 2) % 4 == 2);
        assert(raw[i + 3] == 0);
    }
}

/// A clipboard bitmap as `(width, height, RGBA bytes)`, rows top first.
pub open spec fn decode_dib_spec(d: Seq<u8>) -> Option<(u32, u32, Seq<u8>)> {
    match dib_layout_spec(d) {
        Some(l) => Some((l.width, l.height, dib_rgba_spec(d, l))),
        None => None,
    }
}

} // verus!

verus! {

/// The layout the header of clipboard `data` describes.
pub fn dib_layout(data: &[u8]) -> (r: Option<DibLayout>)
    ensures
        r == dib_layout_spec(data@),
{
    let bmp = data.len() >= 14 && data[0] == 0x42 && data[1] == 0x4D;
    let o: usize = if bmp { 14 } else { 0 };
    let mut file_off: usize = 0;
    if bmp {
        let off = read_u32(data, 10) as usize;
        if off < 14 || off > data.len() {
            return None;
        }
        file_off = off - 14;
    }
    if data.len() - o < 40 {
        return None;
    }
    let dl = data.len() - o;
    let bi = read_u32(data, o) as usize;
    if bi < 40 || bi > dl {
        return None;
    }
    let width = read_i32(data, o + 4);
    let height_raw = read_i32(data, o + 8);
    if width <= 0 || height_raw == 0 || height_raw == i32::MIN {
        return None;
    }
    let top_down = height_raw < 0;
    let height: u32 = if height_raw < 0 { (-(height_raw as i64)) as u32 } else { height_raw as u32 };
    let w = width as u32;
    let ghost o_i: int = o as int;
    assert(width as int == i32le(data@, o_i + 4));
    assert(height_raw as int == i32le(data@, o_i + 8));
    assert(height as int == if height_raw < 0 { -(height_raw as int) } else { height_raw as int });
    assert((w as int) * (height as int) < 0x4000_0000_0000_0000) by (nonlinear_arith)
        requires
            w < 0x8000_0000,
            height <= 0x8000_0000,
    ;
    let count = (w as u64) * (height as u64);
    assert(count as int == (w as int) * (height as int));
    assert(count > 0) by (nonlinear_arith)
        requires
            w >= 1,
            height >= 1,
            count as int == (w as int) * (height as int),
    ;
    if count > MAX_PASTE_PIXELS {
        return None;
    }
    let bit_count = read_u16(data, o + 14);
    let compression = read_u32(data, o + 16);
    if bit_count != 24 && bit_count != 32 {
        return None;
    }
    if compression != 0 && compression != 3 {
        return None;
    }
    let masks = if compression == 3 {
        if dl < 52 {
            return None;
        }
        let r = read_u32(data, o + 40);
        let g = read_u32(data, o + 44);
        let b = read_u32(data, o + 48);
        let a = if bi >= 56 && dl >= 56 {
            read_u32(data, o + 52)
        } else {
            0
        };
        if r == 0 || g == 0 || b == 0 {
            return None;
        }
        Some((r, g, b, a))
    } else {
        None
    };
    let bpp = (bit_count / 8) as usize;
    assert(w as int <= MAX_PASTE_PIXELS) by (nonlinear_arith)
        requires
            w as int * height as int <= MAX_PASTE_PIXELS,
            height >= 1,
    ;
    assert(0 <= w * bpp <= 4 * w) by {
        if bpp == 3 {
            assert(w * bpp == 3 * w);
        } else {
            assert(w * bpp == 4 * w);
        }
    }
    let stride = (w as usize * bpp + 3) / 4 * 4;
    let rows = height as usize;
    let dib = vstd::slice::slice_subrange(data, o, data.len());
    let pixels_off = if bmp {
        file_off
    } else if compression == 3 && bi == 40 {
        if dib_fits(dib, 56, rows, stride) && !dib_fits(dib, 52, rows, stride) {
            56
        } else {
            52
        }
    } else {
        bi
    };
    if !dib_fits(dib, pixels_off, rows, stride) {
        return None;
    }
    Some(
        DibLayout {
            width: w,
            height,
            top_down,
            bpp,
            stride,
            masks,
            base: o + pixels_off,
        },
    )
}

proof fn pixel_in_bounds(d: Seq<u8>, l: DibLayout, y: int, x: int)
    requires
        layout_ok(d, l),
        0 <= y < l.height,
        0 <= x < l.width,
    ensures
        0 <= src_row(l, y) < l.height,
        l.base + src_row(l, y) * l.stride + l.stride <= d.len(),
        0 <= src_row(l, y) * l.stride,
        0 <= x * l.bpp,
        x * l.bpp + l.bpp <= l.stride,
        px_offset(l, y, x) + l.bpp <= d.len(),
{
    let r = src_row(l, y);
    let st = l.stride as int;
    let bpp = l.bpp as int;
    let h = l.height as int;
    let w = l.width as int;
    assert((r + 1) * st <= h * st) by (nonlinear_arith)
        requires
            0 <= r < h,
            st >= 0,
    ;
    assert((r + 1) * st == r * st + st) by (nonlinear_arith);
    assert((x + 1) * bpp == x * bpp + bpp) by (nonlinear_arith);
    assert(0 <= r * st) by (nonlinear_arith)
        requires
            0 <= r,
            st >= 0,
    ;
    assert((x + 1) * bpp <= w * bpp) by (nonlinear_arith)
        requires
            0 <= x < w,
            bpp >= 0,
    ;
    assert(0 <= x * bpp) by (nonlinear_arith)
        requires
            0 <= x,
            bpp >= 0,
    ;
    assert(w * bpp <= st);
}

proof fn alpha_after_push(s: Seq<u8>, px: Seq<u8>)
    requires
        s.len() % 4 == 0,
        px.len() == 4,
    ensures
        alpha_all_zero(s + px) <==> (alpha_all_zero(s) && px[3] == 0),
        (s + px).len() % 4 == 0,
{
    let t = s + px;
    if alpha_all_zero(t) {
        assert(t[s.len() as int + 3] == px[3]);
        assert forall|i: int| 0 <= i < s.len() && i % 4 == 3 implies s[i] == 0 by {
            assert(t[i] == s[i]);
        }
    }
    if alpha_all_zero(s) && px[3] == 0 {
        assert forall|i: int| 0 <= i < t.len() && i % 4 == 3 implies t[i] == 0 by {
            if i >= s.len() {
                assert(i - s.len() == 3);
            }
        }
    }
}

/// The RGBA bytes of the pixel at offset `i`.
fn read_pixel(data: &[u8], l: &DibLayout, i: usize) -> (px: (u8, u8, u8, u8))
    requires
        i + l.bpp <= data@.len(),
        l.bpp == 3 || l.bpp == 4,
    ensures
        seq![px.0, px.1, px.2, px.3] == pixel_at(data@, *l, i as int),
{
    let len = data.len();
    assert(i + l.bpp <= len);
    match l.masks {
        Some((mr, mg, mb, ma)) => {
            let hi: u32 = if l.bpp == 4 {
                (data[i + 3] as u32) * 16777216
            } else {
                0
            };
            let v: u32 = data[i] as u32 + (data[i + 1] as u32) * 256 + (data[i + 2] as u32) * 65536
                + hi;
            assert(v == px_word(data@, i as int, l.bpp as int));
            let a = if ma == 0 {
                255
            } else {
                mask_channel(v, ma)
            };
            (mask_channel(v, mr), mask_channel(v, mg), mask_channel(v, mb), a)
        },
        None => {
            if l.bpp == 4 {
                (data[i + 2], data[i + 1], data[i], data[i + 3])
            } else {
                (data[i + 2], data[i + 1], data[i], 255)
            }
        },
    }
}

/// The RGBA pixels of a bitmap whose header check gave layout `l`.
pub fn dib_rgba(data: &[u8], l: DibLayout) -> (out: Vec<u8>)
    requires
        layout_ok(data@, l),
    ensures
        out@ == dib_rgba_spec(data@, l),
{
    let w = l.width as usize;
    let h = l.height as usize;
    let dlen = data.len();
    let mut out: Vec<u8> = Vec::new();
    let mut any_alpha = false;
    let mut y: usize = 0;
    while y < h
        invariant
            layout_ok(data@, l),
            dlen == data@.len(),
            w == l.width,
            h == l.height,
            y <= h,
            out@ == raw_rows(data@, l, y as int),
            out@.len() % 4 == 0,
            any_alpha == !alpha_all_zero(out@),
        decreases h - y,
    {
        let src_y = if l.top_down {
            y
        } else {
            h - 1 - y
        };
        proof {
            pixel_in_bounds(data@, l, y as int, 0);
        }
        assert(src_y == src_row(l, y as int));
        let row_off = l.base + src_y * l.stride;
        let ghost done = out@;
        let mut x: usize = 0;
        while x < w
            invariant
                layout_ok(data@, l),
                dlen == data@.len(),
                w == l.width,
                h == l.height,
                y < h,
                x <= w,
                row_off == l.base + src_row(l, y as int) * l.stride,
                done == raw_rows(data@, l, y as int),
                out@ == done + raw_row(data@, l, y as int, x as int),
                out@.len() % 4 == 0,
                any_alpha == !alpha_all_zero(out@),
            decreases w - x,
        {
            proof {
                pixel_in_bounds(data@, l, y as int, x as int);
            }
            let i = row_off + x * l.bpp;
            assert(i == px_offset(l, y as int, x as int));
            let (r, g, b, a) = read_pixel(data, &l, i);
            let ghost px = seq![r, g, b, a];
            let ghost before = out@;
            proof {
                alpha_after_push(before, px);
            }
            out.push(r);
            out.push(g);
            out.push(b);
            out.push(a);
            assert(out@ =~= before + px);
            assert(out@ =~= done + raw_row(data@, l, y as int, x as int + 1));
            any_alpha = any_alpha || a != 0;
            x = x + 1;
        }
        y = y + 1;
    }
    if l.bpp == 4 && l.masks.is_none() && !any_alpha {
        let n = out.len();
        let ghost raw = out@;
        let mut k: usize = 0;
        while k < n
            invariant
                out@.len() == n,
                raw.len() == n,
                k <= n,
                forall|i: int|
                    0 <= i < n ==> #[trigger] out@[i] == (if i < k && i % 4 == 3 {
                        255u8
                    } else {
                        raw[i]
                    }),
            decreases n - k,
        {
            if k % 4 == 3 {
                out.set(k, 255);
            }
            k = k + 1;
        }
        assert(out@ =~= opaque(raw));
    }
    out
}

/// A clipboard bitmap as `(width, height, RGBA bytes)`, rows top first, or
/// `None` when the data is not a bitmap this paste takes.
pub fn decode_dib(data: &[u8]) -> (r: Option<(u32, u32, Vec<u8>)>)
    ensures
        match r {
            Some((w, h, px)) => decode_dib_spec(data@) == Some((w, h, px@)),
            None => decode_dib_spec(data@) is None,
        },
{
    let dlen = data.len();
    proof {
        layout_spec_ok(data@);
    }
    match dib_layout(data) {
        Some(l) => {
            let px = dib_rgba(data, l);
            Some((l.width, l.height, px))
        },
        None => None,
    }
}

/// What the PNG encoder of the `image` crate writes for an RGBA8 image of
/// the given size, or `None` where it reports an error.
pub uninterp spec fn png_rgba8(width: u32, height: u32, rgba: Seq<u8>) -> Option<Seq<u8>>;

/// `image::codecs::png::PngEncoder::write_image` into a byte vector, with
/// `ExtendedColorType::Rgba8`. Claimed: the bytes written (or the failure)
/// are what `png_rgba8` names for these arguments. The encoder asserts that
/// the buffer holds exactly `width * height * 4` bytes, hence `requires`.
#[verifier::external_body]
fn encode_png(width: u32, height: u32, rgba: &[u8]) -> (r: Option<Vec<u8>>)
    requires
        rgba@.len() == width as int * height as int * 4,
    ensures
        match r {
            Some(v) => png_rgba8(width, height, rgba@) == Some(v@),
            None => png_rgba8(width, height, rgba@) is None,
        },
{
    let mut bytes = Vec::new();
    match image::codecs::png::PngEncoder::new(&mut bytes).write_image(
        rgba,
        width,
        height,
        image::ExtendedColorType::Rgba8,
    ) {
        Ok(()) => Some(bytes),
        Err(_) => None,
    }
}

proof fn raw_row_len(d: Seq<u8>, l: DibLayout, y: int, n: int)
    requires
        n >= 0,
    ensures
        raw_row(d, l, y, n).len() == 4 * n,
    decreases n,
{
    if n > 0 {
        raw_row_len(d, l, y, n - 1);
    }
}

proof fn raw_rows_len(d: Seq<u8>, l: DibLayout, n: int)
    requires
        n >= 0,
    ensures
        raw_rows(d, l, n).len() == 4 * l.width * n,
    decreases n,
{
    let w = l.width as int;
    if n > 0 {
        raw_rows_len(d, l, n - 1);
        raw_row_len(d, l, n - 1, w);
        assert(4 * w * (n - 1) + 4 * w == 4 * w * n) by (nonlinear_arith);
    } else {
        assert(4 * w * n == 0) by (nonlinear_arith)
            requires
                n == 0,
        ;
    }
}

/// The PNG a clipboard bitmap pastes as: `None` when the data is not a
/// bitmap this paste takes, else what the PNG encoder gives for its pixels.
pub open spec fn clipboard_bitmap_png(d: Seq<u8>) -> Option<Seq<u8>> {
    match decode_dib_spec(d) {
        Some((w, h, px)) => png_rgba8(w, h, px),
        None => None,
    }
}

/// Turn a clipboard DIB, DIBV5, or BMP file into PNG bytes.
pub fn decode_clipboard_bitmap(data: &[u8]) -> (r: Option<Vec<u8>>)
    ensures
        match r {
            Some(v) => clipboard_bitmap_png(data@) == Some(v@),
            None => clipboard_bitmap_png(data@) is None,
        },
{
    let dlen = data.len();
    proof {
        layout_spec_ok(data@);
        if let Some(l) = dib_layout_spec(data@) {
            raw_rows_len(data@, l, l.height as int);
            assert(4 * l.width * l.height == l.width as int * l.height as int * 4)
                by (nonlinear_arith);
        }
    }
    match decode_dib(data) {
        Some((w, h, px)) => encode_png(w, h, px.as_slice()),
        None => None,
    }
}

/// The eight bytes every PNG file starts with.
pub open spec fn png_signature() -> Seq<u8> {
    seq![0x89u8, 0x50u8, 0x4Eu8, 0x47u8, 0x0Du8, 0x0Au8, 0x1Au8, 0x0Au8]
}

/// Whether clipboard PNG bytes pass the checks made before they are parsed:
/// a size between 24 bytes and the PNG limit, and the PNG signature.
pub open spec fn png_prefix_ok(b: Seq<u8>) -> bool {
    &&& 24 <= b.len() <= MAX_PASTE_PNG_BYTES
    &&& b.subrange(0, 8) == png_signature()
}

/// Whether image dimensions read from a PNG header are within the paste
/// limits: both nonzero, at most `MAX_PASTE_PIXELS` pixels.
pub open spec fn dims_within_limits(dims: Option<(u32, u32)>) -> bool {
    match dims {
        Some((w, h)) => w > 0 && h > 0 && w * h <= MAX_PASTE_PIXELS,
        None => false,
    }
}

/// A picture with no width or no height, or more pixels than the paste
/// limit, is refused; any non-empty picture within the limit is taken, and
/// so is every smaller non-empty one.
pub proof fn smaller_pictures_stay_within_limits(w: u32, h: u32, w2: u32, h2: u32)
    ensures
        w == 0 || h == 0 ==> !dims_within_limits(Some((w, h))),
        w * h > MAX_PASTE_PIXELS ==> !dims_within_limits(Some((w, h))),
        !dims_within_limits(None),
        dims_within_limits(Some((w, h))) && 0 < w2 <= w && 0 < h2 <= h ==> dims_within_limits(
            Some((w2, h2)),
        ),
{
    if dims_within_limits(Some((w, h))) && 0 < w2 <= w && 0 < h2 <= h {
        assert(w2 * h2 <= w * h) by (nonlinear_arith)
            requires
                0 < w2 <= w,
                0 < h2 <= h,
        ;
    }
}

/// The limit check on the dimensions a PNG header gave (`None` when it
/// could not be read).
pub fn png_dims_within_limits(dims: Option<(u32, u32)>) -> (r: bool)
    ensures
        r == dims_within_limits(dims),
{
    match dims {
        Some((w, h)) => {
            if w == 0 || h == 0 {
                return false;
            }
            assert((w as int) * (h as int) <= 0xffff_ffff * 0xffff_ffff) by (nonlinear_arith)
                requires
                    w <= 0xffff_ffff,
                    h <= 0xffff_ffff,
            ;
            (w as u64) * (h as u64) <= MAX_PASTE_PIXELS
        },
        None => false,
    }
}

/// The dimensions `image::ImageReader` reads from a PNG's header, through
/// `with_guessed_format` and `into_dimensions`; `None` where either fails.
/// Nothing is claimed of the result: the format guess first consults the
/// guess hooks registered in the running process.
#[verifier::external_body]
fn png_dimensions(bytes: &[u8]) -> (r: Option<(u32, u32)>) {
    match image::ImageReader::new(std::io::Cursor::new(bytes)).with_guessed_format() {
        Ok(reader) => match reader.into_dimensions() {
            Ok(dims) => Some(dims),
            Err(_) => None,
        },
        Err(_) => None,
    }
}

/// Whether clipboard PNG bytes may be pasted as they are: small enough, a
/// PNG by signature, and with a readable header whose dimensions are within
/// the paste limits.
pub fn png_within_limits(bytes: &[u8]) -> (r: bool)
    ensures
        r ==> png_prefix_ok(bytes@),
        !png_prefix_ok(bytes@) ==> !r,
{
    let n = bytes.len();
    if n < 24 || n > MAX_PASTE_PNG_BYTES {
        return false;
    }
    let sig: [u8; 8] = [0x89, 0x50, 0x4E, 0x47, 0x0D, 0x0A, 0x1A, 0x0A];
    let mut k: usize = 0;
    while k < 8
        invariant
            k <= 8,
            n == bytes@.len(),
            n >= 24,
            sig@ == png_signature(),
            forall|j: int| 0 <= j < k ==> bytes@[j] == png_signature()[j],
        decreases 8 - k,
    {
        if bytes[k] != sig[k] {
            assert(bytes@.subrange(0, 8)[k as int] != png_signature()[k as int]);
            return false;
        }
        k = k + 1;
    }
    assert(bytes@.subrange(0, 8) =~= png_signature());
    png_dims_within_limits(png_dimensions(bytes))
}

} // verus!

verus! {

/// A plain 32-bit clipboard bitmap whose alpha bytes are all zero stores no
/// transparency: every pixel it pastes is opaque, and its colour bytes are
/// the ones stored.
pub proof fn zero_alpha_bitmaps_paste_opaque(d: Seq<u8>, l: DibLayout)
    requires
        l.bpp == 4,
        l.masks is None,
        alpha_all_zero(raw_rows(d, l, l.height as int)),
    ensures
        forall|i: int|
            0 <= i < dib_rgba_spec(d, l).len() ==> (#[trigger] dib_rgba_spec(d, l)[i]) == (if i % 4
                == 3 {
                255u8
            } else {
                raw_rows(d, l, l.height as int)[i]
            }),
{
}

} // verus!
