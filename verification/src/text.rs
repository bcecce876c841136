//! Small verified building blocks for text: appending to a `String`,
//! decimal and hexadecimal rendering, and character classes.

use vstd::prelude::*;
use vstd::string::StringExecFns;

verus! {

/// Appends one character (`String::push`).
#[verifier::external_body]
pub fn push_char(s: &mut String, c: char)
    ensures
        final(s)@ == old(s)@.push(c),
{
    s.push(c);
}

/// Appends a string slice.
pub fn push_str(s: &mut String, t: &str)
    ensures
        final(s)@ == old(s)@ + t@,
{
    s.append(t);
}

/// The character of a decimal digit.
pub open spec fn digit_char(d: int) -> char {
    (48 + d) as char
}

/// The decimal rendering of `n`, without leading zeros.
pub open spec fn decimal(n: nat) -> Seq<char>
    decreases n,
{
    if n < 10 {
        seq![digit_char(n as int)]
    } else {
        decimal(n / 10).push(digit_char((n % 10) as int))
    }
}

/// Appends the decimal rendering of `n`.
pub fn push_decimal(s: &mut String, n: u64)
    ensures
        final(s)@ == old(s)@ + decimal(n as nat),
    decreases n,
{
    if n >= 10 {
        push_decimal(s, n / 10);
    }
    let d = (n % 10) as u8;
    push_char(s, (48u8 + d) as char);
    assert(final(s)@ =~= old(s)@ + decimal(n as nat));
}

/// The upper-case hexadecimal digit for `d` in 0..16.
pub open spec fn hex_digit_upper(d: int) -> char {
    if d < 10 { (48 + d) as char } else { (55 + d) as char }
}

/// Four upper-case hexadecimal digits of `v` (as `{:04X}` renders a `u16`).
pub open spec fn hex4_upper(v: u16) -> Seq<char> {
    seq![
        hex_digit_upper(v as int / 4096),
        hex_digit_upper((v as int / 256) % 16),
        hex_digit_upper((v as int / 16) % 16),
        hex_digit_upper(v as int % 16),
    ]
}

fn hex_char_upper(d: u16) -> (c: char)
    requires
        d < 16,
    ensures
        c == hex_digit_upper(d as int),
{
    if d < 10 {
        (48u8 + d as u8) as char
    } else {
        (55u8 + d as u8) as char
    }
}

/// Appends `v` as four upper-case hexadecimal digits.
pub fn push_hex4_upper(s: &mut String, v: u16)
    ensures
        final(s)@ == old(s)@ + hex4_upper(v),
{
    push_char(s, hex_char_upper(v / 4096));
    push_char(s, hex_char_upper((v / 256) % 16));
    push_char(s, hex_char_upper((v / 16) % 16));
    push_char(s, hex_char_upper(v % 16));
    assert(final(s)@ =~= old(s)@ + hex4_upper(v));
}

/// The characters of a string slice, as a vector.
pub fn chars_of(s: &str) -> (v: Vec<char>)
    ensures
        v@ == s@,
{
    let mut v: Vec<char> = Vec::new();
    for c in it: s.chars()
        invariant
            it.seq() == s@,
            v@ == s@.take(it.index() as int),
    {
        proof {
            assert(s@.take(it.index() + 1) =~= s@.take(it.index() as int).push(c));
        }
        v.push(c);
    }
    proof {
        assert(s@.take(s@.len() as int) =~= s@);
    }
    v
}

/// A string holding the characters `v[from..to]`.
pub fn string_of(v: &Vec<char>, from: usize, to: usize) -> (s: String)
    requires
        from <= to <= v@.len(),
    ensures
        s@ == v@.subrange(from as int, to as int),
{
    let mut s = String::new();
    let mut i = from;
    while i < to
        invariant
            from <= i <= to <= v@.len(),
            s@ == v@.subrange(from as int, i as int),
        decreases to - i,
    {
        push_char(&mut s, v[i]);
        i = i + 1;
        assert(s@ =~= v@.subrange(from as int, i as int));
    }
    s
}

/// Unicode `White_Space`, the class `char::is_whitespace` and `str::trim` use.
pub open spec fn is_space(c: char) -> bool {
    let n = c as u32;
    (9 <= n && n <= 13) || n == 32 || n == 0x85 || n == 0xA0 || n == 0x1680 || (0x2000 <= n
        && n <= 0x200A) || n == 0x2028 || n == 0x2029 || n == 0x202F || n == 0x205F || n
        == 0x3000
}

/// The character classes that the trimming operations below strip.
#[derive(Clone, Copy)]
pub enum Strip {
    /// White space, as `str::trim`.
    Space,
    /// `[` and `]`, as `trim_matches(|c| c == '[' || c == ']')`.
    Bracket,
    /// `"`, as `trim_matches('"')`.
    Quote,
    /// `_`, as `trim_matches('_')`.
    Underscore,
}

/// Whether `k` strips `c`.
pub open spec fn strips(k: Strip, c: char) -> bool {
    match k {
        Strip::Space => is_space(c),
        Strip::Bracket => c == '[' || c == ']',
        Strip::Quote => c == '"',
        Strip::Underscore => c == '_',
    }
}

/// Whether `i` is where the leading run of `k`-characters of `s` ends.
pub open spec fn lead_end(s: Seq<char>, k: Strip, i: int) -> bool {
    &&& 0 <= i <= s.len()
    &&& forall|j: int| 0 <= j < i ==> strips(k, #[trigger] s[j])
    &&& i < s.len() ==> !strips(k, s[i])
}

/// Whether `e` is where the trailing run of `k`-characters of `s` starts.
pub open spec fn trail_start(s: Seq<char>, k: Strip, e: int) -> bool {
    &&& 0 <= e <= s.len()
    &&& forall|j: int| e <= j < s.len() ==> strips(k, #[trigger] s[j])
    &&& e > 0 ==> !strips(k, s[e - 1])
}

/// The index of the first character of `s` that `k` does not strip (or the length).
pub open spec fn kept_from(s: Seq<char>, k: Strip) -> int {
    choose|i: int| lead_end(s, k, i)
}

/// One past the last character of `s` that `k` does not strip (or zero).
pub open spec fn kept_to(s: Seq<char>, k: Strip) -> int {
    choose|e: int| trail_start(s, k, e)
}

/// `s` with its leading and trailing `k`-characters removed.
pub open spec fn trim_class(s: Seq<char>, k: Strip) -> Seq<char> {
    let t = s.subrange(kept_from(s, k), s.len() as int);
    t.subrange(0, kept_to(t, k))
}

/// `s` without leading and trailing white space (`str::trim`).
pub open spec fn ws_trim(s: Seq<char>) -> Seq<char> {
    trim_class(s, Strip::Space)
}

/// The leading run ends at exactly one place.
pub proof fn lemma_kept_from(s: Seq<char>, k: Strip, i: int)
    requires
        lead_end(s, k, i),
    ensures
        kept_from(s, k) == i,
{
    let c = kept_from(s, k);
    assert(lead_end(s, k, c));
    if c < i {
        assert(strips(k, s[c]));
    } else if i < c {
        assert(strips(k, s[i]));
    }
}

/// The trailing run starts at exactly one place.
pub proof fn lemma_kept_to(s: Seq<char>, k: Strip, e: int)
    requires
        trail_start(s, k, e),
    ensures
        kept_to(s, k) == e,
{
    let c = kept_to(s, k);
    assert(trail_start(s, k, c));
    if c < e {
        assert(strips(k, s[e - 1]));
    } else if e < c {
        assert(strips(k, s[c - 1]));
    }
}

/// Whether `k` strips `c`.
pub fn strips_char(k: Strip, c: char) -> (b: bool)
    ensures
        b == strips(k, c),
{
    match k {
        Strip::Space => {
            let n = c as u32;
            (9 <= n && n <= 13) || n == 32 || n == 0x85 || n == 0xA0 || n == 0x1680 || (0x2000
                <= n && n <= 0x200A) || n == 0x2028 || n == 0x2029 || n == 0x202F || n == 0x205F
                || n == 0x3000
        },
        Strip::Bracket => c == '[' || c == ']',
        Strip::Quote => c == '"',
        Strip::Underscore => c == '_',
    }
}

/// The bounds of `v[from..to]` trimmed of `k`-characters.
pub fn trim_span(v: &Vec<char>, from: usize, to: usize, k: Strip) -> (r: (usize, usize))
    requires
        from <= to <= v@.len(),
    ensures
        from <= r.0 <= r.1 <= to,
        v@.subrange(r.0 as int, r.1 as int) == trim_class(v@.subrange(from as int, to as int), k),
{
    let ghost s = v@.subrange(from as int, to as int);
    let mut i = from;
    while i < to && strips_char(k, v[i])
        invariant
            from <= i <= to <= v@.len(),
            s == v@.subrange(from as int, to as int),
            forall|j: int| from <= j < i ==> strips(k, #[trigger] v@[j]),
        decreases to - i,
    {
        i = i + 1;
    }
    proof {
        assert forall|j: int| 0 <= j < i - from implies strips(k, #[trigger] s[j]) by {
            assert(s[j] == v@[from + j]);
        }
        assert(lead_end(s, k, i - from));
        lemma_kept_from(s, k, i - from);
    }
    let ghost t = v@.subrange(i as int, to as int);
    assert(t =~= s.subrange(i - from, s.len() as int));
    let mut e = to;
    while e > i && strips_char(k, v[e - 1])
        invariant
            from <= i <= e <= to <= v@.len(),
            t == v@.subrange(i as int, to as int),
            forall|j: int| e <= j < to ==> strips(k, #[trigger] v@[j]),
        decreases e - i,
    {
        e = e - 1;
    }
    proof {
        assert forall|j: int| e - i <= j < t.len() implies strips(k, #[trigger] t[j]) by {
            assert(t[j] == v@[i + j]);
        }
        assert(trail_start(t, k, e - i));
        lemma_kept_to(t, k, e - i);
        assert(t.subrange(0, e - i) =~= v@.subrange(i as int, e as int));
    }
    (i, e)
}

/// Whether `i` is the first position of `c` in `s` (or the length, if absent).
pub open spec fn first_at_is(s: Seq<char>, c: char, i: int) -> bool {
    &&& 0 <= i <= s.len()
    &&& forall|j: int| 0 <= j < i ==> #[trigger] s[j] != c
    &&& i < s.len() ==> s[i] == c
}

/// The position of the first `c` in `s`, or `s.len()` if there is none.
pub open spec fn first_at(s: Seq<char>, c: char) -> int {
    choose|i: int| first_at_is(s, c, i)
}

/// The first occurrence is unique.
pub proof fn lemma_first_at(s: Seq<char>, c: char, i: int)
    requires
        first_at_is(s, c, i),
    ensures
        first_at(s, c) == i,
{
    let f = first_at(s, c);
    assert(first_at_is(s, c, f));
    if f < i {
        assert(s[f] != c);
    } else if i < f {
        assert(s[i] != c);
    }
}

/// The position of the first `c` in `v[from..to]`, counted from `from`
/// (`to` when there is none).
pub fn find_char(v: &Vec<char>, from: usize, to: usize, c: char) -> (r: usize)
    requires
        from <= to <= v@.len(),
    ensures
        from <= r <= to,
        r - from == first_at(v@.subrange(from as int, to as int), c),
{
    let ghost s = v@.subrange(from as int, to as int);
    let mut i = from;
    while i < to && v[i] != c
        invariant
            from <= i <= to <= v@.len(),
            s == v@.subrange(from as int, to as int),
            forall|j: int| from <= j < i ==> #[trigger] v@[j] != c,
        decreases to - i,
    {
        i = i + 1;
    }
    proof {
        assert forall|j: int| 0 <= j < i - from implies #[trigger] s[j] != c by {
            assert(s[j] == v@[from + j]);
        }
        lemma_first_at(s, c, i - from);
    }
    i
}

/// Whether `v[from..to]` spells `lit`.
pub fn span_is(v: &Vec<char>, from: usize, to: usize, lit: &str) -> (b: bool)
    requires
        from <= to <= v@.len(),
    ensures
        b == (v@.subrange(from as int, to as int) == lit@),
{
    let w = chars_of(lit);
    if to - from != w.len() {
        return false;
    }
    let mut i: usize = 0;
    while i < w.len()
        invariant
            w@ == lit@,
            from <= to <= v@.len(),
            to - from == w@.len(),
            i <= w@.len(),
            forall|j: int| 0 <= j < i ==> v@[from + j] == w@[j],
        decreases w@.len() - i,
    {
        if v[from + i] != w[i] {
            assert(v@.subrange(from as int, to as int)[i as int] != lit@[i as int]);
            return false;
        }
        i = i + 1;
    }
    assert(v@.subrange(from as int, to as int) =~= lit@);
    true
}

} // verus!
