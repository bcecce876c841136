//! Terminal-output sanitiser for untrusted profile text.

use crate::text::push_char;
use vstd::prelude::*;

verus! {

/// Replacement for a control character.
pub const REPLACEMENT: char = '?';

/// Unicode general category Cc: C0 controls, DEL and C1 controls.
pub open spec fn spec_is_control(c: char) -> bool {
    (c as u32) <= 0x1f || (0x7f <= (c as u32) && (c as u32) <= 0x9f)
}

/// The bidi/format controls used in "Trojan Source" attacks.
pub open spec fn spec_is_bidi_control(c: char) -> bool {
    let u = c as u32;
    u == 0x200e || u == 0x200f || (0x202a <= u && u <= 0x202e) || (0x2066 <= u && u <= 0x2069)
}

/// A character that must not reach a terminal verbatim.
pub open spec fn is_unsafe_char(c: char) -> bool {
    spec_is_control(c) || spec_is_bidi_control(c)
}

/// What one character becomes on the way to the terminal.
pub open spec fn sanitized_char(c: char) -> char {
    if is_unsafe_char(c) { REPLACEMENT } else { c }
}

/// The sanitised form of a character sequence.
pub open spec fn sanitized(s: Seq<char>) -> Seq<char> {
    s.map_values(|c: char| sanitized_char(c))
}

/// Whether `c` is a control character (Unicode category Cc).
pub fn is_control(c: char) -> (b: bool)
    ensures b == spec_is_control(c),
{
    let u = c as u32;
    u <= 0x1f || (0x7f <= u && u <= 0x9f)
}

/// Whether `c` is a bidi override or isolate control.
pub fn is_bidi_control(c: char) -> (b: bool)
    ensures b == spec_is_bidi_control(c),
{
    let u = c as u32;
    u == 0x200e || u == 0x200f || (0x202a <= u && u <= 0x202e) || (0x2066 <= u && u <= 0x2069)
}

/// Make a profile-derived string safe to print on a single terminal line:
/// every control character and every bidi override becomes `?`.
pub fn sanitize_for_terminal(s: &str) -> (out: String)
    ensures out@ == sanitized(s@),
{
    let mut out = String::new();
    for c in it: s.chars()
        invariant
            it.seq() == s@,
            out@ == sanitized(s@.take(it.index() as int)),
    {
        let r = if is_control(c) || is_bidi_control(c) { REPLACEMENT } else { c };
        proof {
            assert(s@.take(it.index() + 1) =~= s@.take(it.index() as int).push(c));
        }
        push_char(&mut out, r);
    }
    proof { assert(s@.take(s@.len() as int) =~= s@); }
    out
}

/// Sanitised text has the length of its source and holds no control or
/// bidi character; text that holds none passes unchanged, so sanitising
/// twice is sanitising once.
pub proof fn law_sanitized_is_safe(s: Seq<char>)
    ensures
        sanitized(s).len() == s.len(),
        forall|i: int| 0 <= i < s.len() ==> !is_unsafe_char(#[trigger] sanitized(s)[i]),
        (forall|i: int| 0 <= i < s.len() ==> !is_unsafe_char(#[trigger] s[i])) ==> sanitized(s) == s,
        sanitized(sanitized(s)) == sanitized(s),
{
    assert forall|i: int| 0 <= i < s.len() implies !is_unsafe_char(#[trigger] sanitized(s)[i]) by {
        assert(sanitized(s)[i] == sanitized_char(s[i]));
    }
    if forall|i: int| 0 <= i < s.len() ==> !is_unsafe_char(#[trigger] s[i]) {
        assert(sanitized(s) =~= s);
    }
    assert(sanitized(sanitized(s)) =~= sanitized(s));
}

} // verus!
