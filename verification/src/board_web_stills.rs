//! Card pictures that survive closing the workbook: the cache key of a page,
//! where its picture is kept, and the once-per-session bookkeeping that keeps
//! a recapturing page from reading or writing the disk over and over.
//!
//! Everything here is derived state: the pictures are never journaled and
//! never enter the workbook. The worker thread and the files live outside
//! the library; this module decides what they are asked to do.

use vstd::prelude::*;
use crate::text::{chars_of, hex_lower, hex_lower_char, push_char, push_chars};
use crate::board_web::join_path;

verus! {

/// One FNV-1a step over `bytes`, starting from `seed`.
pub open spec fn fnv64_spec(bytes: Seq<u8>, seed: u64) -> u64
    decreases bytes.len(),
{
    if bytes.len() == 0 {
        seed
    } else {
        let h = fnv64_spec(bytes.drop_last(), seed) ^ (bytes.last() as u64);
        ((h as nat * 0x1000_0000_01b3nat) % 0x1_0000_0000_0000_0000nat) as u64
    }
}

/// 64-bit FNV-1a of `bytes` from `seed`.
pub fn fnv64(bytes: &[u8], seed: u64) -> (h: u64)
    ensures
        h == fnv64_spec(bytes@, seed),
{
    let mut hash = seed;
    let mut i: usize = 0;
    while i < bytes.len()
        invariant
            i <= bytes@.len(),
            hash == fnv64_spec(bytes@.take(i as int), seed),
        decreases bytes.len() - i,
    {
        assert(bytes@.take(i + 1).drop_last() =~= bytes@.take(i as int));
        hash = hash ^ (bytes[i] as u64);
        hash = hash.wrapping_mul(0x1000_0000_01b3);
        i = i + 1;
    }
    assert(bytes@.take(bytes@.len() as int) =~= bytes@);
    hash
}

/// The last `n` hexadecimal digits of `x`, lower case, most significant first.
pub open spec fn hex_digits(x: nat, n: nat) -> Seq<char>
    decreases n,
{
    if n == 0 {
        Seq::empty()
    } else {
        hex_digits(x / 16, (n - 1) as nat).push(hex_lower(x % 16))
    }
}

fn push_hex(s: &mut String, x: u64, n: u32)
    ensures
        final(s)@ == old(s)@ + hex_digits(x as nat, n as nat),
    decreases n,
{
    if n > 0 {
        push_hex(s, x / 16, n - 1);
        push_char(s, hex_lower_char((x % 16) as u8));
    }
}

/// The first FNV offset basis, and an independent second seed.
pub const FNV_SEED_A: u64 = 0xcbf2_9ce4_8422_2325;
pub const FNV_SEED_B: u64 = 0x9e37_79b9_7f4a_7c15;

/// What a page's cache key is computed from: the UTF-8 bytes of the page's
/// address followed by `|1`, the version of the stored form.
pub open spec fn keyed_bytes(target: Seq<char>) -> Seq<u8> {
    vstd::utf8::encode_utf8(target) + seq![0x7Cu8, 0x31u8]
}

/// A page's cache key: two independent FNV-1a passes over its keyed bytes,
/// each written as sixteen hexadecimal digits.
pub open spec fn still_key_spec(target: Seq<char>) -> Seq<char> {
    hex_digits(fnv64_spec(keyed_bytes(target), FNV_SEED_A) as nat, 16) + hex_digits(
        fnv64_spec(keyed_bytes(target), FNV_SEED_B) as nat,
        16,
    )
}

proof fn hex_digits_len(x: nat, n: nat)
    ensures
        hex_digits(x, n).len() == n,
    decreases n,
{
    if n > 0 {
        hex_digits_len(x / 16, (n - 1) as nat);
    }
}

/// Every cache key is thirty-two characters long.
pub proof fn still_key_len(target: Seq<char>)
    ensures
        still_key_spec(target).len() == 32,
{
    hex_digits_len(fnv64_spec(keyed_bytes(target), FNV_SEED_A) as nat, 16);
    hex_digits_len(fnv64_spec(keyed_bytes(target), FNV_SEED_B) as nat, 16);
}

/// A lower-case hexadecimal digit: `0`-`9` or `a`-`f`.
pub open spec fn is_hex_lower(c: char) -> bool {
    ('0' <= c && c <= '9') || ('a' <= c && c <= 'f')
}

proof fn hex_digits_are_hex(x: nat, n: nat)
    ensures
        forall|i: int| 0 <= i < hex_digits(x, n).len() ==> is_hex_lower(#[trigger] hex_digits(x, n)[i]),
    decreases n,
{
    if n > 0 {
        hex_digits_are_hex(x / 16, (n - 1) as nat);
        let d = x % 16;
        assert(is_hex_lower(hex_lower(d))) by {
            if d < 10 {
                assert((((d + 48) as u32) as char) as u32 == d + 48);
            } else {
                assert((((d + 87) as u32) as char) as u32 == d + 87);
            }
        }
        let h = hex_digits(x / 16, (n - 1) as nat);
        assert forall|i: int| 0 <= i < hex_digits(x, n).len() implies is_hex_lower(
            #[trigger] hex_digits(x, n)[i],
        ) by {
            if i < h.len() {
                assert(hex_digits(x, n)[i] == h[i]);
            }
        }
    }
}

/// A cache key is thirty-two lower-case hexadecimal digits, so it names a
/// file in every file system.
pub proof fn still_keys_are_lower_hex(target: Seq<char>)
    ensures
        still_key_spec(target).len() == 32,
        forall|i: int| 0 <= i < 32 ==> is_hex_lower(#[trigger] still_key_spec(target)[i]),
{
    still_key_len(target);
    let a = fnv64_spec(keyed_bytes(target), FNV_SEED_A) as nat;
    let b = fnv64_spec(keyed_bytes(target), FNV_SEED_B) as nat;
    hex_digits_len(a, 16);
    hex_digits_len(b, 16);
    hex_digits_are_hex(a, 16);
    hex_digits_are_hex(b, 16);
    assert forall|i: int| 0 <= i < 32 implies is_hex_lower(#[trigger] still_key_spec(target)[i]) by {
        if i < 16 {
            assert(still_key_spec(target)[i] == hex_digits(a, 16)[i]);
        } else {
            assert(still_key_spec(target)[i] == hex_digits(b, 16)[i - 16]);
        }
    }
}

/// One FNV-1a round: mix in a byte, then multiply by the odd multiplier.
pub open spec fn fnv_round(h: u64, b: u8) -> u64 {
    (((h ^ (b as u64)) as nat * 0x1000_0000_01b3nat) % 0x1_0000_0000_0000_0000nat) as u64
}

/// Multiplying by the hash's multiplier modulo 2^64 is undone by
/// multiplying by its inverse.
proof fn fnv_prime_inverts(x: int)
    requires
        0 <= x < 0x1_0000_0000_0000_0000,
    ensures
        ((x * 0x1000_0000_01b3) % 0x1_0000_0000_0000_0000) * 0xb46d_d957_aff6_957b
            % 0x1_0000_0000_0000_0000 == x,
{
    let m: int = 0x1_0000_0000_0000_0000;
    let p: int = 0x1000_0000_01b3;
    let q: int = 0xb46d_d957_aff6_957b;
    let k: int = 12398993177650;
    assert(0x1000_0000_01b3int * 0xb46d_d957_aff6_957bint == 1int + 12398993177650int
        * 0x1_0000_0000_0000_0000int);
    vstd::arithmetic::div_mod::lemma_mul_mod_noop_left(x * p, q, m);
    vstd::arithmetic::mul::lemma_mul_is_associative(x, p, q);
    vstd::arithmetic::mul::lemma_mul_is_distributive_add(x, 1, k * m);
    vstd::arithmetic::mul::lemma_mul_is_associative(x, k, m);
    vstd::arithmetic::div_mod::lemma_mod_multiples_vanish(x * k, x, m);
    vstd::arithmetic::div_mod::lemma_small_mod(x as nat, m as nat);
}

/// A round is a bijection on the state: the multiplier is odd, so it has an
/// inverse modulo 2^64, and the xor undoes itself.
proof fn fnv_round_injective(h1: u64, h2: u64, b1: u8, b2: u8)
    requires
        fnv_round(h1, b1) == fnv_round(h2, b2),
        h1 == h2 || b1 == b2,
    ensures
        h1 == h2 && b1 == b2,
{
    let m: int = 0x1_0000_0000_0000_0000;
    let p: int = 0x1000_0000_01b3;
    let q: int = 0xb46d_d957_aff6_957b;
    let x1 = (h1 ^ (b1 as u64)) as int;
    let x2 = (h2 ^ (b2 as u64)) as int;
    fnv_prime_inverts(x1);
    fnv_prime_inverts(x2);
    assert((x1 * p) % m == (x2 * p) % m);
    assert(x1 == x2);
    let bb1 = b1 as u64;
    let bb2 = b2 as u64;
    assert((h1 ^ bb1) == (h2 ^ bb2) && (h1 == h2 || bb1 == bb2) ==> h1 == h2 && bb1 == bb2)
        by (bit_vector);
}

proof fn fnv_push(bytes: Seq<u8>, b: u8, seed: u64)
    ensures
        fnv64_spec(bytes.push(b), seed) == fnv_round(fnv64_spec(bytes, seed), b),
{
    assert(bytes.push(b).drop_last() =~= bytes);
}

/// Two inputs that agree but for one byte hash apart, from any seed.
proof fn fnv_one_byte_apart(pre: Seq<u8>, b1: u8, b2: u8, post: Seq<u8>, seed: u64)
    requires
        b1 != b2,
    ensures
        fnv64_spec(pre.push(b1) + post, seed) != fnv64_spec(pre.push(b2) + post, seed),
    decreases post.len(),
{
    if post.len() == 0 {
        assert(pre.push(b1) + post =~= pre.push(b1));
        assert(pre.push(b2) + post =~= pre.push(b2));
        fnv_push(pre, b1, seed);
        fnv_push(pre, b2, seed);
        if fnv64_spec(pre.push(b1), seed) == fnv64_spec(pre.push(b2), seed) {
            fnv_round_injective(fnv64_spec(pre, seed), fnv64_spec(pre, seed), b1, b2);
        }
    } else {
        let t = post.drop_last();
        let c = post.last();
        fnv_one_byte_apart(pre, b1, b2, t, seed);
        assert(pre.push(b1) + post =~= (pre.push(b1) + t).push(c));
        assert(pre.push(b2) + post =~= (pre.push(b2) + t).push(c));
        fnv_push(pre.push(b1) + t, c, seed);
        fnv_push(pre.push(b2) + t, c, seed);
        let h1 = fnv64_spec(pre.push(b1) + t, seed);
        let h2 = fnv64_spec(pre.push(b2) + t, seed);
        if fnv_round(h1, c) == fnv_round(h2, c) {
            fnv_round_injective(h1, h2, c, c);
        }
    }
}

/// Sixteen hexadecimal digits name a 64-bit value: different values are
/// written differently.
proof fn hex_digits_injective(x: nat, y: nat, n: nat)
    requires
        x < vstd::arithmetic::power::pow(16, n),
        y < vstd::arithmetic::power::pow(16, n),
        hex_digits(x, n) == hex_digits(y, n),
    ensures
        x == y,
    decreases n,
{
    if n == 0 {
        assert(vstd::arithmetic::power::pow(16, 0) == 1) by {
            reveal(vstd::arithmetic::power::pow);
        }
    } else {
        assert(vstd::arithmetic::power::pow(16, n) == 16 * vstd::arithmetic::power::pow(16, (n - 1) as nat)) by {
            reveal(vstd::arithmetic::power::pow);
        }
        let hx = hex_digits(x / 16, (n - 1) as nat);
        let hy = hex_digits(y / 16, (n - 1) as nat);
        assert(hex_digits(x, n).drop_last() =~= hx);
        assert(hex_digits(y, n).drop_last() =~= hy);
        let dx = x % 16;
        let dy = y % 16;
        hex_digits_len(x / 16, (n - 1) as nat);
        hex_digits_len(y / 16, (n - 1) as nat);
        assert(hex_digits(x, n)[n - 1] == hex_lower(dx));
        assert(hex_digits(y, n)[n - 1] == hex_lower(dy));
        assert(dx == dy) by {
            if dx < 10 {
                assert((((dx + 48) as u32) as char) as u32 == dx + 48);
            } else {
                assert((((dx + 87) as u32) as char) as u32 == dx + 87);
            }
            if dy < 10 {
                assert((((dy + 48) as u32) as char) as u32 == dy + 48);
            } else {
                assert((((dy + 87) as u32) as char) as u32 == dy + 87);
            }
        }
        hex_digits_injective(x / 16, y / 16, (n - 1) as nat);
    }
}

/// Two pages whose addresses differ in one ASCII character get different
/// cache keys (as `https://example.com/a` and `https://example.com/b` do).
pub proof fn pages_one_character_apart_get_different_keys(
    pre: Seq<char>,
    c1: char,
    c2: char,
    post: Seq<char>,
)
    requires
        c1 != c2,
        (c1 as u32) < 0x80,
        (c2 as u32) < 0x80,
    ensures
        still_key_spec(pre.push(c1) + post) != still_key_spec(pre.push(c2) + post),
{
    let t1 = pre.push(c1) + post;
    let t2 = pre.push(c2) + post;
    let tail = vstd::utf8::encode_utf8(post) + seq![0x7Cu8, 0x31u8];
    keyed_bytes_split(pre, c1, post);
    keyed_bytes_split(pre, c2, post);
    let v1 = c1 as u32;
    let v2 = c2 as u32;
    let b1 = vstd::utf8::leading_byte_width_1(v1);
    let b2 = vstd::utf8::leading_byte_width_1(v2);
    assert(b1 != b2) by {
        assert(((v1 & 0x7F) as u8) != ((v2 & 0x7F) as u8)) by (bit_vector)
            requires
                v1 < 0x80,
                v2 < 0x80,
                v1 != v2,
        ;
    }
    fnv_one_byte_apart(vstd::utf8::encode_utf8(pre), b1, b2, tail, FNV_SEED_A);
    let a1 = fnv64_spec(keyed_bytes(t1), FNV_SEED_A) as nat;
    let a2 = fnv64_spec(keyed_bytes(t2), FNV_SEED_A) as nat;
    assert(a1 != a2);
    let b_1 = fnv64_spec(keyed_bytes(t1), FNV_SEED_B) as nat;
    let b_2 = fnv64_spec(keyed_bytes(t2), FNV_SEED_B) as nat;
    hex_digits_len(a1, 16);
    hex_digits_len(a2, 16);
    hex_digits_len(b_1, 16);
    hex_digits_len(b_2, 16);
    if still_key_spec(t1) == still_key_spec(t2) {
        assert(still_key_spec(t1).take(16) =~= hex_digits(a1, 16));
        assert(still_key_spec(t2).take(16) =~= hex_digits(a2, 16));
        assert(vstd::arithmetic::power::pow(16, 16) == 0x1_0000_0000_0000_0000) by {
            reveal_with_fuel(vstd::arithmetic::power::pow, 17);
        }
        hex_digits_injective(a1, a2, 16);
    }
}

proof fn encode_utf8_append(a: Seq<char>, b: Seq<char>)
    ensures
        vstd::utf8::encode_utf8(a + b) == vstd::utf8::encode_utf8(a) + vstd::utf8::encode_utf8(b),
    decreases a.len(),
{
    if a.len() > 0 {
        encode_utf8_append(a.drop_first(), b);
        assert((a + b).drop_first() =~= a.drop_first() + b);
        assert((a + b)[0] == a[0]);
        assert(vstd::utf8::encode_utf8(a + b) =~= vstd::utf8::encode_scalar(a[0] as u32)
            + vstd::utf8::encode_utf8(a.drop_first()) + vstd::utf8::encode_utf8(b));
    } else {
        assert(a + b =~= b);
        assert(vstd::utf8::encode_utf8(a) =~= Seq::<u8>::empty());
    }
}

proof fn keyed_bytes_split(pre: Seq<char>, c: char, post: Seq<char>)
    requires
        (c as u32) < 0x80,
    ensures
        keyed_bytes(pre.push(c) + post) == vstd::utf8::encode_utf8(pre).push(vstd::utf8::leading_byte_width_1(c as u32)) + (vstd::utf8::encode_utf8(post)
            + seq![0x7Cu8, 0x31u8]),
{
    let one = seq![c];
    assert(pre.push(c) + post =~= pre + one + post);
    encode_utf8_append(pre + one, post);
    encode_utf8_append(pre, one);
    assert(one.drop_first() =~= Seq::<char>::empty());
    assert(one[0] == c);
    assert(vstd::utf8::encode_utf8(one.drop_first()) =~= Seq::<u8>::empty());
    assert(vstd::utf8::encode_utf8(one) =~= vstd::utf8::encode_scalar(c as u32));
    assert(keyed_bytes(pre.push(c) + post) =~= vstd::utf8::encode_utf8(pre).push(
        vstd::utf8::leading_byte_width_1(c as u32),
    ) + (vstd::utf8::encode_utf8(
        post,
    ) + seq![0x7Cu8, 0x31u8]));
}

/// The file that keeps the picture for `key` in the folder `dir`.
pub open spec fn entry_path_spec(dir: Seq<char>, key: Seq<char>) -> Seq<char> {
    join_path(dir, key + ".jpg"@)
}

pub fn entry_path(dir: &str, key: &str) -> (p: String)
    ensures
        p@ == entry_path_spec(dir@, key@),
{
    let d = chars_of(dir);
    let mut name = chars_of(key);
    let ext = chars_of(".jpg");
    let mut i: usize = 0;
    let ghost k = name@;
    while i < ext.len()
        invariant
            i <= ext@.len(),
            name@ == k + ext@.take(i as int),
        decreases ext.len() - i,
    {
        name.push(ext[i]);
        assert(k + ext@.take(i as int) + seq![ext@[i as int]] =~= k + ext@.take(i + 1));
        i = i + 1;
    }
    assert(ext@.take(ext@.len() as int) =~= ext@);
    crate::board_web::join_path_chars(&d, &name)
}

/// The views of the strings `v` holds.
pub open spec fn key_set(v: Seq<String>) -> Set<Seq<char>> {
    Set::new(|k: Seq<char>| exists|i: int| 0 <= i < v.len() && (#[trigger] v[i])@ == k)
}

/// Where `v` holds a string equal to `key`, if it does.
pub(crate) fn position(v: &Vec<String>, key: &String) -> (r: Option<usize>)
    ensures
        match r {
            Some(i) => i < v@.len() && v@[i as int]@ == key@,
            None => !key_set(v@).contains(key@),
        },
{
    let mut i: usize = 0;
    while i < v.len()
        invariant
            i <= v@.len(),
            forall|j: int| 0 <= j < i ==> (#[trigger] v@[j])@ != key@,
        decreases v.len() - i,
    {
        if v[i] == *key {
            return Some(i);
        }
        i = i + 1;
    }
    None
}

/// No string of `v` appears twice.
pub open spec fn distinct_keys(v: Seq<String>) -> bool {
    forall|i: int, j: int| 0 <= i < j < v.len() ==> (#[trigger] v[i])@ != (#[trigger] v[j])@
}

pub proof fn distinct_keys_len(v: Seq<String>)
    requires
        distinct_keys(v),
    ensures
        key_set(v).finite(),
        key_set(v).len() == v.len(),
    decreases v.len(),
{
    if v.len() == 0 {
        assert(key_set(v) =~= Set::<Seq<char>>::empty());
    } else {
        let w = v.drop_last();
        assert(distinct_keys(w)) by {
            assert forall|i: int, j: int| 0 <= i < j < w.len() implies (#[trigger] w[i])@ != (
            #[trigger] w[j])@ by {
                assert(w[i] == v[i] && w[j] == v[j]);
            }
        }
        distinct_keys_len(w);
        assert(key_set(v) =~= key_set(w).insert(v.last()@)) by {
            assert forall|s: Seq<char>| #[trigger] key_set(v).contains(s) <==> key_set(w).insert(
                v.last()@,
            ).contains(s) by {
                if key_set(v).contains(s) {
                    let j = choose|j: int| 0 <= j < v.len() && (#[trigger] v[j])@ == s;
                    if j < w.len() {
                        assert(w[j] == v[j]);
                    }
                }
                if key_set(w).contains(s) {
                    let j = choose|j: int| 0 <= j < w.len() && (#[trigger] w[j])@ == s;
                    assert(w[j] == v[j]);
                }
                if s == v.last()@ {
                    assert(v[v.len() - 1]@ == s);
                }
            }
        }
        assert(!key_set(w).contains(v.last()@)) by {
            if key_set(w).contains(v.last()@) {
                let j = choose|j: int| 0 <= j < w.len() && (#[trigger] w[j])@ == v.last()@;
                assert(w[j] == v[j]);
                assert(v[j]@ == v[v.len() - 1]@);
            }
        }
    }
}

proof fn remove_distinct(v: Seq<String>, i: int)
    requires
        distinct_keys(v),
        0 <= i < v.len(),
    ensures
        distinct_keys(v.remove(i)),
        key_set(v.remove(i)) == key_set(v).remove(v[i]@),
{
    let w = v.remove(i);
    assert forall|a: int, b: int| 0 <= a < b < w.len() implies (#[trigger] w[a])@ != (
    #[trigger] w[b])@ by {
        let a2 = if a < i { a } else { a + 1 };
        let b2 = if b < i { b } else { b + 1 };
        assert(w[a] == v[a2] && w[b] == v[b2]);
    }
    assert(key_set(w) =~= key_set(v).remove(v[i]@)) by {
        assert forall|s: Seq<char>| #[trigger] key_set(w).contains(s) <==> key_set(v).remove(
            v[i]@,
        ).contains(s) by {
            if key_set(w).contains(s) {
                let j = choose|j: int| 0 <= j < w.len() && (#[trigger] w[j])@ == s;
                let j2 = if j < i { j } else { j + 1 };
                assert(w[j] == v[j2]);
                assert(j2 != i);
            }
            if key_set(v).remove(v[i]@).contains(s) {
                let j = choose|j: int| 0 <= j < v.len() && (#[trigger] v[j])@ == s;
                assert(j != i);
                let j2 = if j < i { j } else { j - 1 };
                assert(w[j2] == v[j]);
            }
        }
    }
}

/// Pushing a key not yet held keeps the keys distinct and adds it to the set.
pub proof fn push_distinct(v: Seq<String>, k: String)
    requires
        distinct_keys(v),
        !key_set(v).contains(k@),
    ensures
        distinct_keys(v.push(k)),
        key_set(v.push(k)) == key_set(v).insert(k@),
{
    let w = v.push(k);
    assert forall|a: int, b: int| 0 <= a < b < w.len() implies (#[trigger] w[a])@ != (
    #[trigger] w[b])@ by {
        assert(w[a] == v[a]);
        if b < v.len() {
            assert(w[b] == v[b]);
        } else {
            if w[a]@ == k@ {
                assert(key_set(v).contains(k@));
            }
        }
    }
    assert(key_set(w) =~= key_set(v).insert(k@)) by {
        assert forall|s: Seq<char>| #[trigger] key_set(w).contains(s) <==> key_set(v).insert(
            k@,
        ).contains(s) by {
            if key_set(w).contains(s) {
                let j = choose|j: int| 0 <= j < w.len() && (#[trigger] w[j])@ == s;
                if j < v.len() {
                    assert(w[j] == v[j]);
                }
            }
            if key_set(v).contains(s) {
                let j = choose|j: int| 0 <= j < v.len() && (#[trigger] v[j])@ == s;
                assert(w[j] == v[j]);
            }
            if s == k@ {
                assert(w[v.len() as int]@ == s);
            }
        }
    }
}

/// Whether the disk is touched for `key` (read for a request, written for a
/// store): the cache keeps pictures and the key is not among those already
/// `seen` this session.
pub open spec fn first_this_session(off: bool, seen: Set<Seq<char>>, key: Seq<char>) -> bool {
    !off && !seen.contains(key)
}

/// The keys seen after a request or store of `key`.
pub open spec fn seen_after(off: bool, seen: Set<Seq<char>>, key: Seq<char>) -> Set<Seq<char>> {
    if off {
        seen
    } else {
        seen.insert(key)
    }
}

/// A page touches the disk once per session: a second request (or store) of
/// the same key does nothing, however many frames ask, until the key is
/// forgotten, after which it is first again.
pub proof fn a_key_touches_the_disk_once_per_session(
    off: bool,
    seen: Set<Seq<char>>,
    key: Seq<char>,
)
    ensures
        !first_this_session(off, seen_after(off, seen, key), key),
        first_this_session(off, seen_after(off, seen, key).remove(key), key) == !off,
        !off && !seen.contains(key) ==> first_this_session(off, seen, key),
        off ==> !first_this_session(off, seen, key),
{
}

/// Asking for one page never changes whether another page is first this
/// session.
pub proof fn other_keys_are_untouched(off: bool, seen: Set<Seq<char>>, key: Seq<char>, other: Seq<char>)
    requires
        key != other,
    ensures
        first_this_session(off, seen_after(off, seen, key), other) == first_this_session(
            off,
            seen,
            other,
        ),
{
}

/// The once-per-session bookkeeping of the still cache: which keys were
/// asked for, which were written, and how many pictures came back.
pub struct StillCache {
    asked: Vec<String>,
    stored: Vec<String>,
    hits: usize,
    /// A cache that keeps nothing: every request and store is refused.
    off: bool,
}

impl StillCache {
    /// Keys asked for this session.
    pub closed spec fn asked_keys(&self) -> Set<Seq<char>> {
        key_set(self.asked@)
    }

    /// Keys written this session.
    pub closed spec fn stored_keys(&self) -> Set<Seq<char>> {
        key_set(self.stored@)
    }

    pub closed spec fn hit_count(&self) -> nat {
        self.hits as nat
    }

    pub closed spec fn is_off(&self) -> bool {
        self.off
    }

    /// Each key is held once.
    pub closed spec fn wf(&self) -> bool {
        distinct_keys(self.asked@) && distinct_keys(self.stored@)
    }

    /// A cache that remembers, with nothing asked or stored yet.
    pub fn new() -> (c: Self)
        ensures
            c.asked_keys() == Set::<Seq<char>>::empty(),
            c.stored_keys() == Set::<Seq<char>>::empty(),
            c.hit_count() == 0,
            !c.is_off(),
            c.wf(),
    {
        let c = StillCache { asked: Vec::new(), stored: Vec::new(), hits: 0, off: false };
        assert(key_set(c.asked@) =~= Set::<Seq<char>>::empty());
        assert(key_set(c.stored@) =~= Set::<Seq<char>>::empty());
        c
    }

    /// A cache that answers nothing and keeps nothing.
    pub fn disabled() -> (c: Self)
        ensures
            c.asked_keys() == Set::<Seq<char>>::empty(),
            c.stored_keys() == Set::<Seq<char>>::empty(),
            c.hit_count() == 0,
            c.is_off(),
            c.wf(),
    {
        let c = StillCache { asked: Vec::new(), stored: Vec::new(), hits: 0, off: true };
        assert(key_set(c.asked@) =~= Set::<Seq<char>>::empty());
        assert(key_set(c.stored@) =~= Set::<Seq<char>>::empty());
        c
    }

    /// The cache key for a page. The same string answers both "is there a
    /// picture for this?" and "where does this page's picture go?".
    pub fn key(target: &str) -> (k: String)
        ensures
            k@ == still_key_spec(target@),
    {
        let mut bytes: Vec<u8> = Vec::new();
        let b = target.as_bytes();
        let mut i: usize = 0;
        while i < b.len()
            invariant
                i <= b@.len(),
                bytes@ == b@.take(i as int),
            decreases b.len() - i,
        {
            bytes.push(b[i]);
            assert(b@.take(i as int).push(b@[i as int]) =~= b@.take(i + 1));
            i = i + 1;
        }
        assert(b@.take(b@.len() as int) =~= b@);
        bytes.push(0x7Cu8);
        bytes.push(0x31u8);
        assert(bytes@ =~= keyed_bytes(target@));
        let a = fnv64(&bytes, FNV_SEED_A);
        let c = fnv64(&bytes, FNV_SEED_B);
        let mut k = String::new();
        push_hex(&mut k, a, 16);
        push_hex(&mut k, c, 16);
        k
    }

    /// Ask for a card's stored picture, at most once per key per session.
    /// Returns whether the disk should be read for it.
    pub fn request(&mut self, key: &str) -> (load: bool)
        requires
            old(self).wf(),
        ensures
            final(self).wf(),
            load == first_this_session(old(self).is_off(), old(self).asked_keys(), key@),
            final(self).asked_keys() == seen_after(old(self).is_off(), old(self).asked_keys(), key@),
            final(self).stored_keys() == old(self).stored_keys(),
            final(self).hit_count() == old(self).hit_count(),
            final(self).is_off() == old(self).is_off(),
    {
        if self.off {
            return false;
        }
        let k = String::from_str(key);
        if let Some(_) = position(&self.asked, &k) {
            assert(key_set(self.asked@).insert(key@) =~= key_set(self.asked@));
            return false;
        }
        proof {
            push_distinct(self.asked@, k);
        }
        self.asked.push(k);
        true
    }

    /// Keep a picture for next time, once per key per session. Returns
    /// whether it should be written.
    pub fn store(&mut self, key: &str) -> (write: bool)
        requires
            old(self).wf(),
        ensures
            final(self).wf(),
            write == first_this_session(old(self).is_off(), old(self).stored_keys(), key@),
            final(self).stored_keys() == seen_after(old(self).is_off(), old(self).stored_keys(), key@),
            final(self).asked_keys() == old(self).asked_keys(),
            final(self).hit_count() == old(self).hit_count(),
            final(self).is_off() == old(self).is_off(),
    {
        if self.off {
            return false;
        }
        let k = String::from_str(key);
        if let Some(_) = position(&self.stored, &k) {
            assert(key_set(self.stored@).insert(key@) =~= key_set(self.stored@));
            return false;
        }
        proof {
            push_distinct(self.stored@, k);
        }
        self.stored.push(k);
        true
    }

    /// Forget an entry, for a card whose page turned out not to load: it may
    /// be asked for and written again.
    pub fn forget(&mut self, key: &str)
        requires
            old(self).wf(),
        ensures
            final(self).wf(),
            final(self).asked_keys() == old(self).asked_keys().remove(key@),
            final(self).stored_keys() == old(self).stored_keys().remove(key@),
            final(self).hit_count() == old(self).hit_count(),
            final(self).is_off() == old(self).is_off(),
    {
        let k = String::from_str(key);
        match position(&self.asked, &k) {
            Some(i) => {
                proof {
                    remove_distinct(self.asked@, i as int);
                }
                self.asked.remove(i);
            },
            None => {
                assert(key_set(self.asked@).remove(key@) =~= key_set(self.asked@));
            },
        }
        match position(&self.stored, &k) {
            Some(i) => {
                proof {
                    remove_distinct(self.stored@, i as int);
                }
                self.stored.remove(i);
            },
            None => {
                assert(key_set(self.stored@).remove(key@) =~= key_set(self.stored@));
            },
        }
    }

    /// Count pictures that came back from disk.
    pub fn note_hits(&mut self, n: usize)
        requires
            old(self).hit_count() + n <= usize::MAX,
            old(self).wf(),
        ensures
            final(self).wf(),
            final(self).hit_count() == old(self).hit_count() + n,
            final(self).asked_keys() == old(self).asked_keys(),
            final(self).stored_keys() == old(self).stored_keys(),
            final(self).is_off() == old(self).is_off(),
    {
        self.hits = self.hits + n;
    }

    /// Cards handed back from disk this session.
    pub fn hits(&self) -> (n: usize)
        ensures
            n == self.hit_count(),
    {
        self.hits
    }

    /// How many distinct keys were written this session.
    pub fn stored_len(&self) -> (n: usize)
        requires
            self.wf(),
        ensures
            n == self.stored_keys().len(),
    {
        proof {
            distinct_keys_len(self.stored@);
        }
        self.stored.len()
    }
}

} // verus!

verus! {

/// What the card folder may hold before its oldest files are dropped.
pub const BUDGET_BYTES: u64 = 128 * 1024 * 1024;

/// The total size of the files `(modified, length)`.
pub open spec fn total_len(files: Seq<(u128, u64)>) -> int
    decreases files.len(),
{
    if files.len() == 0 {
        0
    } else {
        total_len(files.drop_last()) + files.last().1
    }
}

/// File `a` goes before file `b`: older, or as old and listed earlier.
pub open spec fn goes_before(files: Seq<(u128, u64)>, a: int, b: int) -> bool {
    files[a].0 < files[b].0 || (files[a].0 == files[b].0 && a < b)
}

/// `order` lists each of the files `0..n` once, oldest first, ties in their
/// listed order.
pub open spec fn oldest_first(files: Seq<(u128, u64)>, order: Seq<usize>, n: int) -> bool {
    &&& order.len() == n
    &&& forall|p: int| 0 <= p < order.len() ==> #[trigger] order[p] < n
    &&& forall|p: int, q: int|
        0 <= p < q < order.len() ==> goes_before(files, #[trigger] order[p] as int, #[trigger] order[q] as int)
}

fn total_of(files: &Vec<(u128, u64)>) -> (t: u64)
    requires
        total_len(files@) <= u64::MAX,
    ensures
        t == total_len(files@),
{
    let mut t: u64 = 0;
    let mut i: usize = 0;
    while i < files.len()
        invariant
            i <= files@.len(),
            total_len(files@) <= u64::MAX,
            t == total_len(files@.take(i as int)),
        decreases files.len() - i,
    {
        assert(files@.take(i as int + 1).drop_last() =~= files@.take(i as int));
        proof {
            total_len_prefix(files@, i as int + 1);
        }
        t = t + files[i].1;
        i = i + 1;
    }
    assert(files@.take(files@.len() as int) =~= files@);
    t
}

proof fn total_len_prefix(files: Seq<(u128, u64)>, k: int)
    requires
        0 <= k <= files.len(),
    ensures
        total_len(files.take(k)) <= total_len(files),
    decreases files.len() - k,
{
    if k < files.len() {
        total_len_prefix(files, k + 1);
        assert(files.take(k + 1).drop_last() =~= files.take(k));
    } else {
        assert(files.take(k) =~= files);
    }
}

/// File `i` is somewhere in `order`.
pub open spec fn listed(order: Seq<usize>, i: int) -> bool {
    exists|p: int| 0 <= p < order.len() && order[p] as int == i
}

/// A trimming order lists every card file exactly once, and never puts a
/// file before an older one: the oldest card is tried first.
pub proof fn the_oldest_cards_go_first(files: Seq<(u128, u64)>, order: Seq<usize>)
    requires
        oldest_first(files, order, files.len() as int),
    ensures
        forall|p: int, q: int|
            0 <= p < q < order.len() ==> files[#[trigger] order[p] as int].0 <= files[
                #[trigger] order[q] as int].0,
        forall|i: int| 0 <= i < files.len() ==> #[trigger] listed(order, i),
        forall|i: int| 0 <= i < files.len() ==> files[order[0] as int].0 <= #[trigger] files[i].0,
{
    let n = files.len() as int;
    let s = order.map_values(|x: usize| x as int);
    assert forall|p: int| 0 <= p < s.len() implies #[trigger] s[p] == order[p] as int by {}
    assert forall|p: int, q: int| 0 <= p < q < s.len() implies s[p] != s[q] by {
        assert(goes_before(files, order[p] as int, order[q] as int));
    }
    assert(s.no_duplicates());
    s.unique_seq_to_set();
    vstd::set_lib::lemma_int_range(0, n);
    let r = vstd::set_lib::set_int_range(0, n);
    assert forall|x: int| s.to_set().contains(x) implies r.contains(x) by {
        let p = choose|p: int| 0 <= p < s.len() && s[p] == x;
        assert(order[p] < n);
    }
    vstd::seq_lib::seq_to_set_is_finite(s);
    vstd::set_lib::lemma_subset_equality(s.to_set(), r);
    assert forall|i: int| 0 <= i < files.len() implies #[trigger] listed(order, i) by {
        assert(r.contains(i));
        assert(s.to_set().contains(i));
        let p = choose|p: int| 0 <= p < s.len() && s[p] == i;
        assert(order[p] as int == i);
    }
    assert forall|i: int| 0 <= i < n implies files[order[0] as int].0 <= #[trigger] files[i].0 by {
        assert(listed(order, i));
        let p = choose|p: int| 0 <= p < order.len() && order[p] as int == i;
        if p > 0 {
            assert(goes_before(files, order[0] as int, order[p] as int));
        }
    }
}

/// The plan for trimming the card folder to `budget` bytes: `None` when it
/// already fits; else the files to try removing, oldest first, and how many
/// bytes must go.
pub fn prune_plan(files: &Vec<(u128, u64)>, budget: u64) -> (plan: Option<(Vec<usize>, u64)>)
    requires
        total_len(files@) <= u64::MAX,
    ensures
        total_len(files@) <= budget ==> plan is None,
        total_len(files@) > budget ==> (plan matches Some((order, over)) && over == total_len(
            files@,
        ) - budget && oldest_first(files@, order@, files@.len() as int)),
{
    let total = total_of(files);
    if total <= budget {
        return None;
    }
    let mut order: Vec<usize> = Vec::new();
    let mut i: usize = 0;
    while i < files.len()
        invariant
            i <= files@.len(),
            oldest_first(files@, order@, i as int),
            forall|p: int, q: int| 0 <= p < q < order@.len() ==> order@[p] != order@[q],
        decreases files.len() - i,
    {
        let key = files[i].0;
        let mut k: usize = 0;
        while k < order.len() && files[order[k]].0 <= key
            invariant
                k <= order@.len(),
                i < files@.len(),
                key == files@[i as int].0,
                oldest_first(files@, order@, i as int),
                forall|p: int| 0 <= p < k ==> files@[#[trigger] order@[p] as int].0 <= key,
            decreases order.len() - k,
        {
            k = k + 1;
        }
        let ghost before = order@;
        order.insert(k, i);
        assert(order@ == before.insert(k as int, i));
        assert forall|p: int, q: int| 0 <= p < q < order@.len() implies goes_before(
            files@,
            #[trigger] order@[p] as int,
            #[trigger] order@[q] as int,
        ) by {
            if q < k {
                assert(order@[p] == before[p] && order@[q] == before[q]);
            } else if q == k {
                assert(order@[p] == before[p]);
                assert(files@[before[p] as int].0 <= key);
                assert(before[p] < i);
            } else if p > k {
                assert(order@[p] == before[p - 1] && order@[q] == before[q - 1]);
            } else if p == k {
                assert(order@[q] == before[q - 1]);
                assert(k < before.len());
                assert(files@[before[k as int] as int].0 > key);
                if q - 1 > k {
                    assert(goes_before(files@, before[k as int] as int, before[q - 1] as int));
                }
            } else {
                assert(order@[p] == before[p] && order@[q] == before[q - 1]);
            }
        }
        assert forall|p: int| 0 <= p < order@.len() implies #[trigger] order@[p] < i + 1 by {
            if p < k {
                assert(order@[p] == before[p]);
            } else if p > k {
                assert(order@[p] == before[p - 1]);
            }
        }
        assert forall|p: int, q: int| 0 <= p < q < order@.len() implies order@[p] != order@[q] by {
            assert(goes_before(files@, order@[p] as int, order@[q] as int));
        }
        i = i + 1;
    }
    Some((order, total - budget))
}

/// Bytes still to remove after trying to remove a file of `len` bytes: less
/// by its size (never below zero) when it was removed, else unchanged.
pub fn prune_after(over: u64, len: u64, removed: bool) -> (left: u64)
    ensures
        left == (if removed {
            if over >= len {
                over - len
            } else {
                0
            }
        } else {
            over as int
        }),
{
    if removed {
        over.saturating_sub(len)
    } else {
        over
    }
}

} // verus!
