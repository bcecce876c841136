//! Choosing a disc directory by name without leaving the discs directory.
//!
//! The name must be one plain path component; the directory it names must
//! then resolve, on disk, to a directory inside the (resolved) discs
//! directory. What the filesystem says is gathered by the caller into a
//! `DiscDirProbe`; the decision is made here.

use crate::text::{chars_of, push_char, push_str, span_is};
use vstd::prelude::*;

verus! {

/// A name that is one plain path component: not empty, no `/`, `\` or NUL,
/// and neither `.` nor `..`.
pub open spec fn plain_name(name: Seq<char>) -> bool {
    &&& name.len() > 0
    &&& !name.contains('/')
    &&& !name.contains('\\')
    &&& !name.contains('\0')
    &&& name != "."@
    &&& name != ".."@
}

/// `file` inside `dir`: `dir` itself when empty contributes nothing, and a
/// `/` is put between them unless `dir` already ends with one.
pub open spec fn path_join(dir: Seq<char>, file: Seq<char>) -> Seq<char> {
    if dir.len() == 0 {
        file
    } else if dir.last() == '/' {
        dir + file
    } else {
        dir + "/"@ + file
    }
}

/// Whether the canonical path `r` lies at or below the canonical directory
/// `b` (component-wise: `/a/bc` is not below `/a/b`).
pub open spec fn within(r: Seq<char>, b: Seq<char>) -> bool {
    ||| r == b
    ||| (b.len() > 0 && b.last() == '/' && b.is_prefix_of(r))
    ||| b.push('/').is_prefix_of(r)
}

/// What the filesystem says about a candidate disc directory.
pub struct DiscDirProbe {
    /// The discs directory, canonicalized; `None` when it does not resolve.
    pub base: Option<String>,
    /// The candidate directory, canonicalized; `None` when it does not resolve.
    pub resolved: Option<String>,
    /// Whether the canonicalized candidate is a directory.
    pub resolved_is_dir: bool,
    /// Whether the candidate, as joined, is a directory.
    pub candidate_is_dir: bool,
}

/// The directory chosen for disc `name` under `discs_base`, given what the
/// filesystem says of the candidate `path_join(discs_base, name)`: nothing
/// for a name that is not plain; when the discs directory resolves, the
/// resolved candidate, if it resolves to a directory within it; when the
/// discs directory does not resolve, the candidate itself if it is a
/// directory.
pub open spec fn disc_dir_choice(
    discs_base: Seq<char>,
    name: Seq<char>,
    base: Option<String>,
    resolved: Option<String>,
    resolved_is_dir: bool,
    candidate_is_dir: bool,
) -> Option<Seq<char>> {
    if !plain_name(name) {
        None
    } else {
        match base {
            Some(b) => match resolved {
                Some(r) => if within(r@, b@) && resolved_is_dir {
                    Some(r@)
                } else {
                    None
                },
                None => None,
            },
            None => if candidate_is_dir {
                Some(path_join(discs_base, name))
            } else {
                None
            },
        }
    }
}

/// The view of an optional string.
pub open spec fn opt_string(o: Option<String>) -> Option<Seq<char>> {
    match o {
        Some(s) => Some(s@),
        None => None,
    }
}

fn has_char(v: &Vec<char>, c: char) -> (b: bool)
    ensures
        b == v@.contains(c),
{
    let mut i: usize = 0;
    while i < v.len()
        invariant
            i <= v@.len(),
            forall|j: int| 0 <= j < i ==> v@[j] != c,
        decreases v@.len() - i,
    {
        if v[i] == c {
            return true;
        }
        i = i + 1;
    }
    false
}

/// Whether `name` is one plain path component (see `plain_name`).
pub fn is_plain_disc_name(name: &str) -> (b: bool)
    ensures
        b == plain_name(name@),
{
    let v = chars_of(name);
    let n = v.len();
    proof {
        assert(v@.subrange(0, n as int) =~= name@);
    }
    n > 0 && !has_char(&v, '/') && !has_char(&v, '\\') && !has_char(&v, '\0') && !span_is(
        &v,
        0,
        n,
        ".",
    ) && !span_is(&v, 0, n, "..")
}

/// `file` inside `dir` (see `path_join`).
pub fn join_dir(dir: &str, file: &str) -> (r: String)
    ensures
        r@ == path_join(dir@, file@),
{
    let v = chars_of(dir);
    let mut s = String::new();
    push_str(&mut s, dir);
    if v.len() > 0 && v[v.len() - 1] != '/' {
        push_char(&mut s, '/');
    }
    push_str(&mut s, file);
    proof {
        if dir@.len() > 0 && dir@.last() != '/' {
            assert(s@ =~= dir@ + "/"@ + file@) by {
                reveal_strlit("/");
            }
        } else {
            assert(s@ =~= dir@ + file@);
        }
    }
    s
}

fn is_prefix(p: &Vec<char>, v: &Vec<char>) -> (b: bool)
    ensures
        b == p@.is_prefix_of(v@),
{
    if p.len() > v.len() {
        return false;
    }
    let mut i: usize = 0;
    while i < p.len()
        invariant
            p@.len() <= v@.len(),
            i <= p@.len(),
            forall|j: int| 0 <= j < i ==> p@[j] == v@[j],
        decreases p@.len() - i,
    {
        if p[i] != v[i] {
            return false;
        }
        i = i + 1;
    }
    assert(p@ =~= v@.take(p@.len() as int));
    true
}

/// Whether the canonical path `r` lies within the canonical directory `b`.
pub fn is_within(r: &str, b: &str) -> (w: bool)
    ensures
        w == within(r@, b@),
{
    let rv = chars_of(r);
    let mut bv = chars_of(b);
    if rv.len() == bv.len() && is_prefix(&bv, &rv) {
        assert(rv@ =~= bv@);
        return true;
    }
    if bv.len() > 0 && bv[bv.len() - 1] == '/' && is_prefix(&bv, &rv) {
        return true;
    }
    bv.push('/');
    let w = is_prefix(&bv, &rv);
    proof {
        if r@ == b@ {
            assert(b@.is_prefix_of(r@));
        }
        if b@.len() > 0 && b@.last() == '/' && b@.is_prefix_of(r@) {
            assert(b@.len() > 0 && b@[b@.len() - 1] == '/');
        }
    }
    w
}

/// The candidate directory for disc `name` under `discs_base`: `None` when
/// `name` is not one plain path component.
pub fn disc_dir_candidate(discs_base: &str, name: &str) -> (r: Option<String>)
    ensures
        opt_string(r) == (if plain_name(name@) {
            Some(path_join(discs_base@, name@))
        } else {
            None
        }),
{
    if is_plain_disc_name(name) {
        Some(join_dir(discs_base, name))
    } else {
        None
    }
}

/// Resolves disc `name` to a directory under `discs_base` with path
/// traversal contained: the name must be a single plain component, and,
/// when the discs directory resolves, the resolved candidate must be a
/// directory within it; when it does not, the candidate must be a
/// directory. `probe` holds what the filesystem says of the candidate
/// `path_join(discs_base, name)`.
pub fn safe_disc_dir(discs_base: &str, name: &str, probe: &DiscDirProbe) -> (r: Option<String>)
    ensures
        opt_string(r) == disc_dir_choice(
            discs_base@,
            name@,
            probe.base,
            probe.resolved,
            probe.resolved_is_dir,
            probe.candidate_is_dir,
        ),
{
    if !is_plain_disc_name(name) {
        return None;
    }
    match &probe.base {
        Some(b) => match &probe.resolved {
            Some(r) => {
                if is_within(r.as_str(), b.as_str()) && probe.resolved_is_dir {
                    Some(r.clone())
                } else {
                    None
                }
            },
            None => None,
        },
        None => {
            if probe.candidate_is_dir {
                Some(join_dir(discs_base, name))
            } else {
                None
            }
        },
    }
}

/// A chosen disc directory never escapes: the name was one plain component,
/// and when the discs directory resolves, the choice lies within it.
pub proof fn law_chosen_disc_dir_is_contained(
    discs_base: Seq<char>,
    name: Seq<char>,
    base: Option<String>,
    resolved: Option<String>,
    resolved_is_dir: bool,
    candidate_is_dir: bool,
)
    requires
        disc_dir_choice(discs_base, name, base, resolved, resolved_is_dir, candidate_is_dir) is Some,
    ensures
        plain_name(name),
        base matches Some(b) ==> within(
            disc_dir_choice(discs_base, name, base, resolved, resolved_is_dir, candidate_is_dir)->0,
            b@,
        ),
{
}

/// A name that is not one plain path component (`../escape`, `a/b`, `..`,
/// an absolute path, ...) selects no disc directory, whatever the
/// filesystem holds; `cmd_load` given no disc then answers
/// `ERR invalid disc name` and changes nothing.
pub proof fn law_escaping_names_select_no_disc(
    discs_base: Seq<char>,
    name: Seq<char>,
    base: Option<String>,
    resolved: Option<String>,
    resolved_is_dir: bool,
    candidate_is_dir: bool,
)
    requires
        !plain_name(name),
    ensures
        disc_dir_choice(discs_base, name, base, resolved, resolved_is_dir, candidate_is_dir) is None,
{
}

} // verus!
