//! The text forms of profile fields: numbers, hexadecimal blobs, `drive.toml`
//! values and keys, and the names of per-buffer blob files.

use crate::text::{chars_of, find_char, first_at, span_is, string_of, trim_span, ws_trim, Strip};
use vstd::prelude::*;

verus! {

/// The value of `c` as a digit in `radix` (10 or 16), or -1 when it is none.
pub open spec fn digit_value(c: char, radix: int) -> int {
    let n = c as u32;
    let d: int = if 48 <= n && n <= 57 {
        n - 48
    } else if 97 <= n && n <= 102 {
        n - 87
    } else if 65 <= n && n <= 70 {
        n - 55
    } else {
        -1
    };
    if 0 <= d && d < radix {
        d
    } else {
        -1
    }
}

/// Whether every character of `s` is a digit in `radix`.
pub open spec fn all_digits(s: Seq<char>, radix: int) -> bool {
    forall|i: int| 0 <= i < s.len() ==> digit_value(#[trigger] s[i], radix) >= 0
}

/// The number that the digits `s` spell in `radix`.
pub open spec fn digits_value(s: Seq<char>, radix: int) -> int
    decreases s.len(),
{
    if s.len() == 0 {
        0
    } else {
        digits_value(s.drop_last(), radix) * radix + digit_value(s.last(), radix)
    }
}

/// What `from_str_radix` gives for an unsigned type whose largest value is
/// `max`: an optional `+`, then at least one digit, and a value that fits.
pub open spec fn radix_number(s: Seq<char>, radix: int, max: int) -> Option<int> {
    let body = if s.len() > 0 && s[0] == '+' {
        s.drop_first()
    } else {
        s
    };
    if body.len() > 0 && all_digits(body, radix) && digits_value(body, radix) <= max {
        Some(digits_value(body, radix))
    } else {
        None
    }
}

/// A number as a `u16`.
pub open spec fn as_u16(o: Option<int>) -> Option<u16> {
    match o {
        Some(v) => Some(v as u16),
        None => None,
    }
}

/// A number as a `u8`.
pub open spec fn as_u8(o: Option<int>) -> Option<u8> {
    match o {
        Some(v) => Some(v as u8),
        None => None,
    }
}

/// A `u16` written in hexadecimal after `0x` or `0X`, or else in decimal,
/// with surrounding white space ignored.
pub open spec fn u16_text(s: Seq<char>) -> Option<u16> {
    let t = ws_trim(s);
    if t.len() >= 2 && t[0] == '0' && (t[1] == 'x' || t[1] == 'X') {
        as_u16(radix_number(t.skip(2), 16, 0xFFFF))
    } else {
        as_u16(radix_number(t, 10, 0xFFFF))
    }
}

/// `s` with every leading repetition of the two characters `a b` removed
/// (`trim_start_matches`).
pub open spec fn strip_pairs(s: Seq<char>, a: char, b: char) -> Seq<char>
    decreases s.len(),
{
    if s.len() >= 2 && s[0] == a && s[1] == b {
        strip_pairs(s.skip(2), a, b)
    } else {
        s
    }
}

/// A read-buffer id: hexadecimal, after every leading `0x` and then every
/// leading `0X` is removed.
pub open spec fn buffer_key(s: Seq<char>) -> Option<u8> {
    as_u8(radix_number(strip_pairs(strip_pairs(s, '0', 'x'), '0', 'X'), 16, 0xFF))
}

/// The digits have a value no smaller than zero.
proof fn lemma_digits_nonneg(s: Seq<char>, radix: int)
    requires
        all_digits(s, radix),
        radix >= 1,
    ensures
        digits_value(s, radix) >= 0,
    decreases s.len(),
{
    if s.len() > 0 {
        assert(all_digits(s.drop_last(), radix)) by {
            assert forall|i: int| 0 <= i < s.drop_last().len() implies digit_value(
                #[trigger] s.drop_last()[i],
                radix,
            ) >= 0 by {
                assert(s.drop_last()[i] == s[i]);
            }
        }
        lemma_digits_nonneg(s.drop_last(), radix);
        let v = digits_value(s.drop_last(), radix);
        assert(v * radix >= 0) by (nonlinear_arith)
            requires
                v >= 0,
                radix >= 1,
        ;
        assert(digit_value(s[s.len() - 1], radix) >= 0);
    }
}

/// A prefix of digits has a value no larger than the whole.
proof fn lemma_digits_prefix(s: Seq<char>, radix: int, k: int)
    requires
        0 <= k <= s.len(),
        all_digits(s, radix),
        radix >= 1,
    ensures
        digits_value(s.take(k), radix) <= digits_value(s, radix),
    decreases s.len() - k,
{
    if k < s.len() {
        lemma_digits_prefix(s, radix, k + 1);
        assert(s.take(k + 1).drop_last() =~= s.take(k));
        assert(all_digits(s.take(k), radix)) by {
            assert forall|i: int| 0 <= i < s.take(k).len() implies digit_value(
                #[trigger] s.take(k)[i],
                radix,
            ) >= 0 by {
                assert(s.take(k)[i] == s[i]);
            }
        }
        lemma_digits_nonneg(s.take(k), radix);
        let v = digits_value(s.take(k), radix);
        assert(v * radix >= v) by (nonlinear_arith)
            requires
                v >= 0,
                radix >= 1,
        ;
        assert(s.take(k + 1).last() == s[k]);
        assert(digit_value(s[k], radix) >= 0);
    } else {
        assert(s.take(k) =~= s);
    }
}

/// The digit that `c` stands for in `radix` (10 or 16).
fn digit_of(c: char, radix: u32) -> (d: Option<u32>)
    requires
        radix == 10 || radix == 16,
    ensures
        match d {
            Some(x) => x as int == digit_value(c, radix as int) && x < radix,
            None => digit_value(c, radix as int) == -1,
        },
{
    let n = c as u32;
    let d: u32 = if 48 <= n && n <= 57 {
        n - 48
    } else if 97 <= n && n <= 102 {
        n - 87
    } else if 65 <= n && n <= 70 {
        n - 55
    } else {
        return None;
    };
    if d < radix {
        Some(d)
    } else {
        None
    }
}

/// The number `v[from..to]` spells in `radix`, as `from_str_radix` reads it
/// for an unsigned type whose largest value is `max`.
pub fn parse_number(v: &Vec<char>, from: usize, to: usize, radix: u32, max: u32) -> (r: Option<
    u32,
>)
    requires
        from <= to <= v@.len(),
        radix == 10 || radix == 16,
        max <= 0xFFFF,
    ensures
        match r {
            Some(x) => radix_number(v@.subrange(from as int, to as int), radix as int, max as int)
                == Some(x as int),
            None => radix_number(v@.subrange(from as int, to as int), radix as int, max as int)
                is None,
        },
{
    let ghost s = v@.subrange(from as int, to as int);
    let mut start = from;
    if from < to && v[from] == '+' {
        start = from + 1;
    }
    let ghost body = v@.subrange(start as int, to as int);
    proof {
        if s.len() > 0 && s[0] == '+' {
            assert(body =~= s.drop_first());
        } else {
            assert(body =~= s);
        }
    }
    if start == to {
        return None;
    }
    let mut acc: u32 = 0;
    let mut i = start;
    while i < to
        invariant
            from <= start <= i <= to <= v@.len(),
            s == v@.subrange(from as int, to as int),
            body == v@.subrange(start as int, to as int),
            body == (if s.len() > 0 && s[0] == '+' {
                s.drop_first()
            } else {
                s
            }),
            radix == 10 || radix == 16,
            max <= 0xFFFF,
            acc <= max,
            acc as int == digits_value(body.take(i - start), radix as int),
            all_digits(body.take(i - start), radix as int),
        decreases to - i,
    {
        let ghost k = i - start;
        assert(body[k] == v@[i as int]);
        let d = match digit_of(v[i], radix) {
            Some(d) => d,
            None => {
                assert(!all_digits(body, radix as int));
                return None;
            },
        };
        assert(acc * radix <= 0xFFFF * 16) by (nonlinear_arith)
            requires
                acc <= 0xFFFF,
                radix <= 16,
        ;
        let next = acc * radix + d;
        proof {
            assert(body.take(k + 1).drop_last() =~= body.take(k));
            assert(body.take(k + 1).last() == body[k]);
            assert(all_digits(body.take(k + 1), radix as int)) by {
                assert forall|j: int| 0 <= j < body.take(k + 1).len() implies digit_value(
                    #[trigger] body.take(k + 1)[j],
                    radix as int,
                ) >= 0 by {
                    if j < k {
                        assert(body.take(k + 1)[j] == body.take(k)[j]);
                    }
                }
            }
        }
        if next > max {
            proof {
                if all_digits(body, radix as int) {
                    lemma_digits_prefix(body, radix as int, k + 1);
                }
            }
            return None;
        }
        acc = next;
        i = i + 1;
    }
    assert(body.take(to - start) =~= body);
    Some(acc)
}

/// `parse_number` for a `u16`, read as `u16_text` reads it.
pub fn parse_u16_span(v: &Vec<char>, from: usize, to: usize) -> (r: Option<u16>)
    requires
        from <= to <= v@.len(),
    ensures
        r == u16_text(v@.subrange(from as int, to as int)),
{
    let (a, b) = trim_span(v, from, to, Strip::Space);
    let ghost t = v@.subrange(a as int, b as int);
    if b - a >= 2 && v[a] == '0' && (v[a + 1] == 'x' || v[a + 1] == 'X') {
        assert(t.skip(2) =~= v@.subrange(a + 2, b as int));
        match parse_number(v, a + 2, b, 16, 0xFFFF) {
            Some(x) => Some(x as u16),
            None => None,
        }
    } else {
        match parse_number(v, a, b, 10, 0xFFFF) {
            Some(x) => Some(x as u16),
            None => None,
        }
    }
}

/// A `u16` in hexadecimal (`0x` or `0X` prefix) or decimal; `None` when the
/// text is neither, so that the caller keeps its default.
pub fn parse_u16_opt(s: &str) -> (r: Option<u16>)
    ensures
        r == u16_text(s@),
{
    let v = chars_of(s);
    assert(v@.subrange(0, v@.len() as int) =~= s@);
    parse_u16_span(&v, 0, v.len())
}

/// The position in `v[from..to]` after every leading repetition of `a b`.
fn skip_pairs(v: &Vec<char>, from: usize, to: usize, a: char, b: char) -> (r: usize)
    requires
        from <= to <= v@.len(),
    ensures
        from <= r <= to,
        v@.subrange(r as int, to as int) == strip_pairs(v@.subrange(from as int, to as int), a, b),
{
    let mut i = from;
    while to - i >= 2 && v[i] == a && v[i + 1] == b
        invariant
            from <= i <= to <= v@.len(),
            strip_pairs(v@.subrange(from as int, to as int), a, b) == strip_pairs(
                v@.subrange(i as int, to as int),
                a,
                b,
            ),
        decreases to - i,
    {
        assert(v@.subrange(i as int, to as int).skip(2) =~= v@.subrange(i + 2, to as int));
        i = i + 2;
    }
    i
}

/// A read-buffer id written as `buffer_key` reads it.
pub fn parse_buffer_key_span(v: &Vec<char>, from: usize, to: usize) -> (r: Option<u8>)
    requires
        from <= to <= v@.len(),
    ensures
        r == buffer_key(v@.subrange(from as int, to as int)),
{
    let i = skip_pairs(v, from, to, '0', 'x');
    let j = skip_pairs(v, i, to, '0', 'X');
    match parse_number(v, j, to, 16, 0xFF) {
        Some(x) => Some(x as u8),
        None => None,
    }
}

/// A read-buffer id (`0x` prefixes allowed); `None` for a malformed key.
pub fn parse_buffer_key(s: &str) -> (r: Option<u8>)
    ensures
        r == buffer_key(s@),
{
    let v = chars_of(s);
    assert(v@.subrange(0, v@.len() as int) =~= s@);
    parse_buffer_key_span(&v, 0, v.len())
}

/// Whether `c` is an ASCII hexadecimal digit.
pub open spec fn is_hex(c: char) -> bool {
    digit_value(c, 16) >= 0
}

/// The hexadecimal digits of `s`, in order; everything else dropped.
pub open spec fn hex_only(s: Seq<char>) -> Seq<char>
    decreases s.len(),
{
    if s.len() == 0 {
        s
    } else {
        let r = hex_only(s.drop_last());
        if is_hex(s.last()) {
            r.push(s.last())
        } else {
            r
        }
    }
}

/// The bytes that consecutive pairs of hexadecimal digits spell; an odd
/// last digit is dropped.
pub open spec fn hex_pairs(d: Seq<char>) -> Seq<u8> {
    Seq::new(
        (d.len() / 2) as nat,
        |i: int| (digit_value(d[2 * i], 16) * 16 + digit_value(d[2 * i + 1], 16)) as u8,
    )
}

/// The bytes a hexadecimal dump spells, ignoring every non-digit character.
pub open spec fn hex_blob(s: Seq<char>) -> Seq<u8> {
    hex_pairs(hex_only(s))
}

/// Decodes a hexadecimal dump: the characters that are not hexadecimal
/// digits are dropped, the rest are read in pairs, and an odd last digit
/// is ignored.
pub fn parse_hex(hex: &str) -> (r: Vec<u8>)
    ensures
        r@ == hex_blob(hex@),
{
    let v = chars_of(hex);
    let mut clean: Vec<char> = Vec::new();
    let mut i: usize = 0;
    while i < v.len()
        invariant
            v@ == hex@,
            i <= v@.len(),
            clean@ == hex_only(v@.take(i as int)),
            forall|k: int| 0 <= k < clean@.len() ==> is_hex(#[trigger] clean@[k]),
        decreases v@.len() - i,
    {
        proof {
            assert(v@.take(i + 1).drop_last() =~= v@.take(i as int));
            assert(v@.take(i + 1).last() == v@[i as int]);
        }
        if digit_of(v[i], 16).is_some() {
            clean.push(v[i]);
        }
        i = i + 1;
    }
    assert(v@.take(v@.len() as int) =~= hex@);
    let ghost d = clean@;
    let n = clean.len() / 2;
    let mut out: Vec<u8> = Vec::new();
    let mut j: usize = 0;
    while j < n
        invariant
            d == clean@,
            n == d.len() / 2,
            d.len() == clean.len(),
            j <= n,
            out@ == hex_pairs(d).take(j as int),
            forall|k: int| 0 <= k < d.len() ==> is_hex(#[trigger] d[k]),
        decreases n - j,
    {
        assert(2 * j + 1 < d.len()) by (nonlinear_arith)
            requires
                j < n,
                n == d.len() / 2,
        ;
        let hi = digit_of(clean[2 * j], 16).unwrap();
        let lo = digit_of(clean[2 * j + 1], 16).unwrap();
        let byte = (hi * 16 + lo) as u8;
        out.push(byte);
        proof {
            assert(out@ =~= hex_pairs(d).take(j + 1));
        }
        j = j + 1;
    }
    assert(hex_pairs(d).take(n as int) =~= hex_pairs(d));
    out
}

/// The text before the first `#` of `s` (all of it when there is none).
pub open spec fn before_hash(s: Seq<char>) -> Seq<char> {
    s.take(first_at(s, '#'))
}

/// The value on the right of `=` in a `drive.toml` line: trimmed; when it
/// starts with `"`, everything up to the next `"` verbatim (a `#` inside is
/// kept); otherwise, or when the quote is never closed, the text before the
/// first `#`, trimmed again.
pub open spec fn toml_value(raw: Seq<char>) -> Seq<char> {
    let t = ws_trim(raw);
    if t.len() > 0 && t[0] == '"' {
        let rest = t.drop_first();
        let q = first_at(rest, '"');
        if q < rest.len() {
            rest.take(q)
        } else {
            ws_trim(before_hash(rest))
        }
    } else {
        ws_trim(before_hash(t))
    }
}

/// `toml_value` of `v[from..to]`.
pub fn toml_value_span(v: &Vec<char>, from: usize, to: usize) -> (r: String)
    requires
        from <= to <= v@.len(),
    ensures
        r@ == toml_value(v@.subrange(from as int, to as int)),
{
    let (a, b) = trim_span(v, from, to, Strip::Space);
    let ghost t = v@.subrange(a as int, b as int);
    if a < b && v[a] == '"' {
        assert(t.drop_first() =~= v@.subrange(a + 1, b as int));
        let q = find_char(v, a + 1, b, '"');
        if q < b {
            assert(t.drop_first().take(q - (a + 1)) =~= v@.subrange(a + 1, q as int));
            return string_of(v, a + 1, q);
        }
        let h = find_char(v, a + 1, b, '#');
        assert(before_hash(t.drop_first()) =~= v@.subrange(a + 1, h as int));
        let (c, d) = trim_span(v, a + 1, h, Strip::Space);
        string_of(v, c, d)
    } else {
        let h = find_char(v, a, b, '#');
        assert(before_hash(t) =~= v@.subrange(a as int, h as int));
        let (c, d) = trim_span(v, a, h, Strip::Space);
        string_of(v, c, d)
    }
}

/// The bare value of the right-hand side of a `key = value` line: an
/// optional pair of double quotes removed, and a trailing `#` comment
/// removed only where it stands outside the quotes.
pub fn parse_toml_value(raw: &str) -> (r: String)
    ensures
        r@ == toml_value(raw@),
{
    let v = chars_of(raw);
    assert(v@.subrange(0, v@.len() as int) =~= raw@);
    toml_value_span(&v, 0, v.len())
}

/// The id in the name of a per-buffer blob file `<tag>XX.bin`, where `tag`
/// is three characters and `XX` is hexadecimal.
pub open spec fn blob_file_id(name: Seq<char>, tag: Seq<char>) -> Option<u8> {
    if name.len() >= 7 && name.take(3) == tag && name.skip(name.len() - 4) == ".bin"@ {
        as_u8(radix_number(name.subrange(3, name.len() - 4), 16, 0xFF))
    } else {
        None
    }
}

fn blob_file_id_of(name: &str, tag: &str) -> (r: Option<u8>)
    requires
        tag@.len() == 3,
    ensures
        r == blob_file_id(name@, tag@),
{
    let v = chars_of(name);
    let n = v.len();
    if n < 7 {
        return None;
    }
    if !span_is(&v, 0, 3, tag) || !span_is(&v, n - 4, n, ".bin") {
        proof {
            assert(v@.subrange(0, 3) =~= name@.take(3));
            assert(v@.subrange(n - 4, n as int) =~= name@.skip(n - 4));
        }
        return None;
    }
    proof {
        assert(v@.subrange(0, 3) =~= name@.take(3));
        assert(v@.subrange(n - 4, n as int) =~= name@.skip(n - 4));
        assert(v@.subrange(3, n - 4) =~= name@.subrange(3, n - 4));
    }
    match parse_number(&v, 3, n - 4, 16, 0xFF) {
        Some(x) => Some(x as u8),
        None => None,
    }
}

/// The buffer id of a `rb_XX.bin` file of a profile directory.
pub fn read_buffer_file_id(name: &str) -> (r: Option<u8>)
    ensures
        r == blob_file_id(name@, "rb_"@),
{
    proof {
        reveal_strlit("rb_");
    }
    blob_file_id_of(name, "rb_")
}

/// The format code of a `ds_XX.bin` file of a disc directory.
pub fn structure_file_id(name: &str) -> (r: Option<u8>)
    ensures
        r == blob_file_id(name@, "ds_"@),
{
    proof {
        reveal_strlit("ds_");
    }
    blob_file_id_of(name, "ds_")
}

} // verus!
