//! The decisions of the `bdemu` command line: the `run` flag scan, the exit
//! status of a child, the `load` command line, how a control reply is
//! judged, and how `validate` judges the blobs of a profile.

use crate::sanitize::{sanitize_for_terminal, sanitized, spec_is_control};
use crate::text::{chars_of, decimal, hex4_upper, push_decimal, push_hex4_upper, push_str, string_of, trim_span, ws_trim, Strip};
use vstd::prelude::*;
use vstd::utf8::{decode_utf8, valid_utf8};

verus! {

/// Whether `s` starts with `p`.
pub open spec fn starts_with(s: Seq<char>, p: Seq<char>) -> bool {
    p.is_prefix_of(s)
}

/// The characters of each string.
pub open spec fn texts(s: Seq<String>) -> Seq<Seq<char>> {
    Seq::new(s.len(), |i: int| s[i]@)
}

/// Whether a token looks like a flag (starts with `-`).
pub open spec fn looks_like_flag(t: Seq<char>) -> bool {
    t.len() > 0 && t[0] == '-'
}

/// The value following a flag at `idx`: the argument there, unless it is
/// absent or looks like another flag.
pub open spec fn flag_value_of(args: Seq<Seq<char>>, idx: int) -> Option<Seq<char>> {
    if 0 <= idx < args.len() && !looks_like_flag(args[idx]) {
        Some(args[idx])
    } else {
        None
    }
}

/// The view of an optional borrowed string.
pub open spec fn opt_ref_text(o: Option<&String>) -> Option<Seq<char>> {
    match o {
        Some(s) => Some(s@),
        None => None,
    }
}

/// The view of an optional string.
pub open spec fn opt_text(o: Option<String>) -> Option<Seq<char>> {
    match o {
        Some(s) => Some(s@),
        None => None,
    }
}

fn starts_with_char(s: &str, c: char) -> (b: bool)
    ensures
        b == (s@.len() > 0 && s@[0] == c),
{
    let v = chars_of(s);
    v.len() > 0 && v[0] == c
}

/// The value of the flag whose value is expected at `idx`; `None` when it
/// is missing or looks like another flag (`--profile --disc x` does not set
/// the profile to `--disc`).
pub fn flag_value(args: &[String], idx: usize) -> (r: Option<&String>)
    ensures
        opt_ref_text(r) == flag_value_of(texts(args@), idx as int),
{
    if idx < args.len() && !starts_with_char(args[idx].as_str(), '-') {
        Some(&args[idx])
    } else {
        None
    }
}

/// The result of the `bdemu run` flag scan.
pub struct RunArgs {
    pub profile: Option<String>,
    pub disc: Option<String>,
    /// Index into the arguments where the child command begins (0: none).
    pub cmd_start: usize,
}

/// The `run` flag scan from argument `i`, with the profile and disc found
/// so far: `--profile`/`-p` and `--disc`/`-d` take the next argument as
/// their value (an error naming the flag when it is missing), `--` makes the
/// command start after it, and any other argument starts the command.
pub open spec fn run_scan(
    args: Seq<Seq<char>>,
    i: int,
    profile: Option<Seq<char>>,
    disc: Option<Seq<char>>,
) -> Result<(Option<Seq<char>>, Option<Seq<char>>, int), Seq<char>>
    decreases args.len() - i,
{
    if i >= args.len() || i < 0 {
        Ok((profile, disc, 0))
    } else {
        let a = args[i];
        if a == "--profile"@ || a == "-p"@ {
            match flag_value_of(args, i + 1) {
                Some(v) => run_scan(args, i + 2, Some(v), disc),
                None => Err("--profile"@),
            }
        } else if a == "--disc"@ || a == "-d"@ {
            match flag_value_of(args, i + 1) {
                Some(v) => run_scan(args, i + 2, profile, Some(v)),
                None => Err("--disc"@),
            }
        } else if a == "--"@ {
            Ok((profile, disc, i + 1))
        } else {
            Ok((profile, disc, i))
        }
    }
}

/// The scan of `bdemu run ...`, whose flags start at the third argument.
pub open spec fn run_args_of(args: Seq<Seq<char>>) -> Result<(Option<Seq<char>>, Option<Seq<char>>, int), Seq<char>> {
    run_scan(args, 2, None, None)
}

/// The view of a scan result.
pub open spec fn run_args_view(r: Result<RunArgs, &'static str>) -> Result<(Option<Seq<char>>, Option<Seq<char>>, int), Seq<char>> {
    match r {
        Ok(a) => Ok((opt_text(a.profile), opt_text(a.disc), a.cmd_start as int)),
        Err(e) => Err(e@),
    }
}

fn is_either(s: &String, a: &str, b: &str) -> (r: bool)
    ensures
        r == (s@ == a@ || s@ == b@),
{
    let v = chars_of(s.as_str());
    let n = v.len();
    assert(v@.subrange(0, n as int) =~= s@);
    crate::text::span_is(&v, 0, n, a) || crate::text::span_is(&v, 0, n, b)
}

/// Scans the flags of `bdemu run --profile <dir> [--disc <name>] --
/// <command>...`; a flag missing its value is an error naming that flag.
pub fn parse_run_args(args: &[String]) -> (r: Result<RunArgs, &'static str>)
    ensures
        run_args_view(r) == run_args_of(texts(args@)),
{
    let ghost t = texts(args@);
    let mut profile: Option<String> = None;
    let mut disc: Option<String> = None;
    let mut i: usize = 2;
    while i < args.len()
        invariant
            t == texts(args@),
            i >= 2,
            run_args_of(t) == run_scan(t, i as int, opt_text(profile), opt_text(disc)),
        decreases args@.len() - i,
    {
        if is_either(&args[i], "--profile", "-p") {
            match flag_value(args, i + 1) {
                Some(v) => {
                    profile = Some(v.clone());
                },
                None => {
                    proof {
                        reveal_strlit("--profile");
                    }
                    return Err("--profile");
                },
            }
            i = i + 2;
        } else if is_either(&args[i], "--disc", "-d") {
            match flag_value(args, i + 1) {
                Some(v) => {
                    disc = Some(v.clone());
                },
                None => {
                    return Err("--disc");
                },
            }
            i = i + 2;
        } else if is_either(&args[i], "--", "--") {
            return Ok(RunArgs { profile, disc, cmd_start: i + 1 });
        } else {
            return Ok(RunArgs { profile, disc, cmd_start: i });
        }
    }
    Ok(RunArgs { profile, disc, cmd_start: 0 })
}

/// The exit status to pass on for a child: its exit code, else 128 plus the
/// signal that killed it (so a crash is told from a failure), else 1.
pub open spec fn exit_code_of(code: Option<i32>, signal: Option<i32>) -> int {
    match code {
        Some(c) => c as int,
        None => match signal {
            Some(s) => 128 + s,
            None => 1,
        },
    }
}

/// The exit status for a child that exited with `code` or was killed by
/// `signal` (see `exit_code_of`).
pub fn exit_code_from(code: Option<i32>, signal: Option<i32>) -> (r: i32)
    requires
        signal matches Some(s) ==> s <= i32::MAX - 128,
    ensures
        r as int == exit_code_of(code, signal),
{
    match code {
        Some(c) => c,
        None => match signal {
            Some(s) => 128 + s,
            None => 1,
        },
    }
}

/// The first control character of `s`, if any.
pub open spec fn first_control(s: Seq<char>) -> Option<char>
    decreases s.len(),
{
    if s.len() == 0 {
        None
    } else if spec_is_control(s[0]) {
        Some(s[0])
    } else {
        first_control(s.drop_first())
    }
}

/// The message for a disc name holding a control character.
pub open spec fn control_char_message(c: char) -> Seq<char> {
    "Error: disc name contains an illegal control character (U+"@ + hex4_upper((c as u32) as u16) + ")"@
}

/// The control command that loads disc `name`: refused when the name holds
/// a control character (the protocol is line-based, so a newline would
/// truncate the name or smuggle a second command).
pub open spec fn load_command_of(name: Seq<char>) -> Result<Seq<char>, Seq<char>> {
    match first_control(name) {
        Some(c) => Err(control_char_message(c)),
        None => Ok("load "@ + name),
    }
}

/// The view of a `Result` of two strings.
pub open spec fn text_result(r: Result<String, String>) -> Result<Seq<char>, Seq<char>> {
    match r {
        Ok(s) => Ok(s@),
        Err(e) => Err(e@),
    }
}

/// The `load <name>` control command, or the error for a name holding a
/// control character.
pub fn load_command(name: &str) -> (r: Result<String, String>)
    ensures
        text_result(r) == load_command_of(name@),
{
    let v = chars_of(name);
    let mut i: usize = 0;
    assert(v@.skip(0) =~= v@);
    while i < v.len()
        invariant
            v@ == name@,
            i <= v@.len(),
            first_control(name@) == first_control(v@.skip(i as int)),
        decreases v@.len() - i,
    {
        let c = v[i];
        let n = c as u32;
        let ctl = n <= 0x1f || (0x7f <= n && n <= 0x9f);
        assert(v@.skip(i as int)[0] == c);
        if ctl {
            let mut s = String::new();
            push_str(&mut s, "Error: disc name contains an illegal control character (U+");
            push_hex4_upper(&mut s, n as u16);
            push_str(&mut s, ")");
            assert(s@ =~= control_char_message(c));
            return Err(s);
        }
        assert(v@.skip(i as int).drop_first() =~= v@.skip(i + 1));
        i = i + 1;
    }
    assert(v@.skip(i as int).len() == 0);
    let mut s = String::new();
    push_str(&mut s, "load ");
    push_str(&mut s, name);
    Ok(s)
}

/// How the CLI treats a control-socket reply.
#[derive(Debug, PartialEq, Eq, Structural)]
pub enum ControlOutcome {
    Success,
    Error,
    /// The terminator never arrived: the reply was cut short.
    Truncated,
}

/// A reply is a failure when any line starts with `ERR ` or when its first
/// line does not start with `OK` (an empty reply included).
pub open spec fn reply_is_error(lines: Seq<Seq<char>>) -> bool {
    (exists|i: int| 0 <= i < lines.len() && starts_with(#[trigger] lines[i], "ERR "@)) || !(
    lines.len() > 0 && starts_with(lines[0], "OK"@))
}

/// The outcome of a reply: truncated without its terminator, whatever it
/// holds; otherwise an error or success as `reply_is_error` says.
pub open spec fn reply_outcome(lines: Seq<Seq<char>>, terminated: bool) -> ControlOutcome {
    if !terminated {
        ControlOutcome::Truncated
    } else if reply_is_error(lines) {
        ControlOutcome::Error
    } else {
        ControlOutcome::Success
    }
}

fn has_prefix(s: &String, p: &str) -> (b: bool)
    ensures
        b == starts_with(s@, p@),
{
    let v = chars_of(s.as_str());
    let w = chars_of(p);
    if w.len() > v.len() {
        return false;
    }
    let mut i: usize = 0;
    while i < w.len()
        invariant
            v@ == s@,
            w@ == p@,
            w@.len() <= v@.len(),
            i <= w@.len(),
            forall|j: int| 0 <= j < i ==> w@[j] == v@[j],
        decreases w@.len() - i,
    {
        if w[i] != v[i] {
            return false;
        }
        i = i + 1;
    }
    assert(w@ =~= v@.take(w@.len() as int));
    true
}

/// Whether a control reply is a failure (see `reply_is_error`).
pub fn response_is_error(lines: &[String]) -> (b: bool)
    ensures
        b == reply_is_error(texts(lines@)),
{
    let ghost t = texts(lines@);
    let mut i: usize = 0;
    while i < lines.len()
        invariant
            t == texts(lines@),
            i <= lines@.len(),
            forall|j: int| 0 <= j < i ==> !starts_with(#[trigger] t[j], "ERR "@),
        decreases lines@.len() - i,
    {
        if has_prefix(&lines[i], "ERR ") {
            assert(starts_with(t[i as int], "ERR "@));
            return true;
        }
        i = i + 1;
    }
    if lines.len() == 0 {
        return true;
    }
    !has_prefix(&lines[0], "OK")
}

/// Judges a control reply; a missing terminator wins over what arrived.
pub fn classify_response(lines: &[String], terminated: bool) -> (r: ControlOutcome)
    ensures
        r == reply_outcome(texts(lines@), terminated),
{
    if !terminated {
        ControlOutcome::Truncated
    } else if response_is_error(lines) {
        ControlOutcome::Error
    } else {
        ControlOutcome::Success
    }
}

/// Why a blob's size could not be read.
#[derive(Debug, PartialEq, Eq, Structural, Clone, Copy)]
pub enum StatError {
    /// The file does not exist.
    NotFound,
    /// Any other failure (permissions, I/O error).
    Other,
}

/// What `validate` makes of a blob of a disc directory.
#[derive(Debug, PartialEq, Eq, Structural)]
pub enum BlobState {
    Missing,
    Empty,
    Present(u64),
    /// Its size could not be read for a reason other than absence.
    Unreadable,
}

/// The state of a blob from the result of reading its size.
pub open spec fn blob_state_of(meta: Result<u64, StatError>) -> BlobState {
    match meta {
        Ok(n) => if n == 0 {
            BlobState::Empty
        } else {
            BlobState::Present(n)
        },
        Err(StatError::NotFound) => BlobState::Missing,
        Err(StatError::Other) => BlobState::Unreadable,
    }
}

/// Classifies a blob from the result of reading its size: a zero-byte blob
/// (an interrupted capture) is `Empty`, not a pass.
pub fn classify_blob(meta: Result<u64, StatError>) -> (s: BlobState)
    ensures
        s == blob_state_of(meta),
{
    match meta {
        Ok(n) => if n == 0 {
            BlobState::Empty
        } else {
            BlobState::Present(n)
        },
        Err(StatError::NotFound) => BlobState::Missing,
        Err(StatError::Other) => BlobState::Unreadable,
    }
}

/// How `validate` describes a blob state.
pub open spec fn blob_description(s: BlobState) -> Seq<char> {
    match s {
        BlobState::Missing => "missing"@,
        BlobState::Empty => "EMPTY (0 bytes — interrupted capture?)"@,
        BlobState::Present(n) => decimal(n as nat) + " bytes"@,
        BlobState::Unreadable => "UNREADABLE"@,
    }
}

impl BlobState {
    /// An empty or unreadable blob fails validation; a missing one does not.
    pub fn is_broken(&self) -> (b: bool)
        ensures
            b == (*self is Empty || *self is Unreadable),
    {
        match self {
            BlobState::Empty => true,
            BlobState::Unreadable => true,
            _ => false,
        }
    }

    /// The description of the state (see `blob_description`).
    pub fn describe(&self) -> (r: String)
        ensures
            r@ == blob_description(*self),
    {
        match self {
            BlobState::Missing => String::from_str("missing"),
            BlobState::Empty => String::from_str("EMPTY (0 bytes — interrupted capture?)"),
            BlobState::Present(n) => {
                let mut s = String::new();
                push_decimal(&mut s, *n);
                push_str(&mut s, " bytes");
                s
            },
            BlobState::Unreadable => String::from_str("UNREADABLE"),
        }
    }
}

/// A disc directory passes when neither its TOC nor its sectors are broken.
pub fn disc_passes(toc: &BlobState, sectors: &BlobState) -> (b: bool)
    ensures
        b == !((*toc is Empty || *toc is Unreadable) || (*sectors is Empty
            || *sectors is Unreadable)),
{
    !(toc.is_broken() || sectors.is_broken())
}

/// What `str::from_utf8` gives for some bytes: their text when they are
/// valid UTF-8, and `None` otherwise.
pub open spec fn utf8_decoded(b: Seq<u8>) -> Option<Seq<char>> {
    if valid_utf8(b) {
        Some(decode_utf8(b))
    } else {
        None
    }
}

/// `std::str::from_utf8` on `bytes[from..to]`: the text the bytes encode
/// when they are valid UTF-8, and `None` when they are not.
#[verifier::external_body]
fn utf8_text(bytes: &Vec<u8>, from: usize, to: usize) -> (r: Option<String>)
    requires
        from <= to <= bytes@.len(),
    ensures
        opt_text(r) == utf8_decoded(bytes@.subrange(from as int, to as int)),
{
    match std::str::from_utf8(&bytes[from..to]) {
        Ok(s) => Some(s.to_string()),
        Err(_) => None,
    }
}

/// Text from profile bytes: the bytes as UTF-8, or `?` when they are not.
pub open spec fn field_text(b: Seq<u8>) -> Seq<char> {
    match utf8_decoded(b) {
        Some(t) => t,
        None => "?"@,
    }
}

fn field_string(bytes: &Vec<u8>, from: usize, to: usize) -> (r: String)
    requires
        from <= to <= bytes@.len(),
    ensures
        r@ == field_text(bytes@.subrange(from as int, to as int)),
{
    match utf8_text(bytes, from, to) {
        Some(s) => s,
        None => String::from_str("?"),
    }
}

fn trimmed(s: &String) -> (r: String)
    ensures
        r@ == ws_trim(s@),
{
    let v = chars_of(s.as_str());
    assert(v@.subrange(0, v@.len() as int) =~= s@);
    let (a, b) = trim_span(&v, 0, v.len(), Strip::Space);
    string_of(&v, a, b)
}

/// The vendor and product of a 96-byte INQUIRY response, as `validate`
/// shows them: the identification fields read as UTF-8 (`?` otherwise),
/// trimmed, and made safe for a terminal.
pub open spec fn inquiry_names(d: Seq<u8>) -> (Seq<char>, Seq<char>) {
    (
        sanitized(ws_trim(field_text(d.subrange(8, 16)))),
        sanitized(ws_trim(field_text(d.subrange(16, 32)))),
    )
}

/// The vendor and product of an INQUIRY response of the expected 96 bytes;
/// `None` for any other length.
pub fn inquiry_summary(data: &Vec<u8>) -> (r: Option<(String, String)>)
    ensures
        match r {
            Some(p) => data@.len() == 96 && (p.0@, p.1@) == inquiry_names(data@),
            None => data@.len() != 96,
        },
{
    if data.len() != 96 {
        return None;
    }
    let vendor = trimmed(&field_string(data, 8, 16));
    let product = trimmed(&field_string(data, 16, 32));
    Some((sanitize_for_terminal(vendor.as_str()), sanitize_for_terminal(product.as_str())))
}

/// The annotation `validate` adds to a feature blob: the firmware date
/// (bytes 4..16) of feature 0x010C, the trimmed serial (bytes 4..) of any
/// other annotated feature; nothing when the blob has four bytes or fewer.
pub open spec fn feature_note(code: u16, d: Seq<u8>) -> Seq<char> {
    if d.len() <= 4 {
        Seq::empty()
    } else if code == 0x010C {
        " — date: "@ + sanitized(field_text(d.subrange(4, if d.len() < 16 { d.len() as int } else { 16 })))
    } else {
        " — serial: "@ + sanitized(ws_trim(field_text(d.subrange(4, d.len() as int))))
    }
}

/// The annotation for an annotated feature blob (see `feature_note`).
pub fn feature_annotation(code: u16, data: &Vec<u8>) -> (r: String)
    ensures
        r@ == feature_note(code, data@),
{
    let n = data.len();
    if n <= 4 {
        return String::new();
    }
    let mut s = String::new();
    if code == 0x010C {
        let end = if n < 16 {
            n
        } else {
            16
        };
        let date = field_string(data, 4, end);
        push_str(&mut s, " — date: ");
        let clean = sanitize_for_terminal(date.as_str());
        push_str(&mut s, clean.as_str());
    } else {
        let serial = trimmed(&field_string(data, 4, n));
        push_str(&mut s, " — serial: ");
        let clean = sanitize_for_terminal(serial.as_str());
        push_str(&mut s, clean.as_str());
    }
    s
}

/// What `validate` found of the INQUIRY blob.
#[derive(Debug, PartialEq, Eq, Structural, Clone, Copy)]
pub enum InquiryFact {
    /// It could not be read.
    Missing,
    /// It was read but is not 96 bytes long (a warning).
    WrongLength,
    /// It is 96 bytes long.
    Complete,
}

/// What `validate` found of one required feature blob.
#[derive(Debug, PartialEq, Eq, Structural, Clone, Copy)]
pub enum FeatureFact {
    Missing,
    Empty,
    Unreadable,
    Present,
}

/// What `validate` found in a profile directory.
pub struct ProfileFacts {
    pub drive_toml_exists: bool,
    pub inquiry: InquiryFact,
    /// One entry per required feature.
    pub features: Vec<FeatureFact>,
    /// Whether the directory could be listed to count its features.
    pub features_listed: bool,
    pub discs_dir_exists: bool,
    /// Whether the discs directory could be listed.
    pub discs_listed: bool,
    /// The TOC and sectors blobs of each disc directory.
    pub discs: Vec<(BlobState, BlobState)>,
}

/// Whether a blob state fails validation.
pub open spec fn broken(s: BlobState) -> bool {
    s is Empty || s is Unreadable
}

/// A profile passes when `drive.toml` exists, the INQUIRY blob can be read,
/// every required feature is present and not empty, the directory can be
/// listed, and, when there is a discs directory, it can be listed and no
/// disc has a broken TOC or sectors blob.
pub open spec fn profile_passes(f: ProfileFacts) -> bool {
    &&& f.drive_toml_exists
    &&& f.inquiry != InquiryFact::Missing
    &&& forall|i: int| 0 <= i < f.features@.len() ==> #[trigger] f.features@[i] == FeatureFact::Present
    &&& f.features_listed
    &&& f.discs_dir_exists ==> (f.discs_listed && forall|i: int|
        0 <= i < f.discs@.len() ==> !broken((#[trigger] f.discs@[i]).0) && !broken(f.discs@[i].1))
}

/// The warnings of a profile: an INQUIRY blob of the wrong length, and no
/// discs directory.
pub open spec fn profile_warnings(f: ProfileFacts) -> int {
    (if f.inquiry == InquiryFact::WrongLength { 1int } else { 0 }) + (if f.discs_dir_exists {
        0int
    } else {
        1
    })
}

/// The verdict of `validate` and its count of warnings.
pub fn profile_verdict(f: &ProfileFacts) -> (r: (bool, u32))
    ensures
        r.0 == profile_passes(*f),
        r.1 as int == profile_warnings(*f),
{
    let mut ok = f.drive_toml_exists && f.inquiry != InquiryFact::Missing && f.features_listed;
    let mut i: usize = 0;
    let mut all_present = true;
    while i < f.features.len()
        invariant
            i <= f.features@.len(),
            all_present == forall|j: int| 0 <= j < i ==> #[trigger] f.features@[j] == FeatureFact::Present,
        decreases f.features@.len() - i,
    {
        all_present = all_present && f.features[i] == FeatureFact::Present;
        i = i + 1;
    }
    ok = ok && all_present;
    if f.discs_dir_exists {
        let mut discs_ok = f.discs_listed;
        let mut k: usize = 0;
        while k < f.discs.len()
            invariant
                k <= f.discs@.len(),
                discs_ok == (f.discs_listed && forall|j: int|
                    0 <= j < k ==> !broken((#[trigger] f.discs@[j]).0) && !broken(f.discs@[j].1)),
            decreases f.discs@.len() - k,
        {
            discs_ok = discs_ok && disc_passes(&f.discs[k].0, &f.discs[k].1);
            k = k + 1;
        }
        ok = ok && discs_ok;
    }
    let w1: u32 = if f.inquiry == InquiryFact::WrongLength { 1 } else { 0 };
    let w2: u32 = if f.discs_dir_exists { 0 } else { 1 };
    (ok, w1 + w2)
}

/// Whether a file of a profile directory is a feature blob (`gc_*.bin`).
pub open spec fn is_feature_file_name(name: Seq<char>) -> bool {
    starts_with(name, "gc_"@) && name.len() >= 4 && name.skip(name.len() - 4) == ".bin"@
}

/// Whether `name` is a feature blob's file name (see `is_feature_file_name`).
pub fn is_feature_file(name: &str) -> (b: bool)
    ensures
        b == is_feature_file_name(name@),
{
    let v = chars_of(name);
    let n = v.len();
    if n < 4 {
        proof {
            reveal_strlit("gc_");
        }
        return false;
    }
    let head = n >= 3 && crate::text::span_is(&v, 0, 3, "gc_");
    let tail = crate::text::span_is(&v, n - 4, n, ".bin");
    proof {
        reveal_strlit("gc_");
        assert(v@.subrange(n - 4, n as int) =~= name@.skip(n - 4));
        if n >= 3 {
            assert(v@.subrange(0, 3) =~= name@.take(3));
        }
    }
    head && tail
}

/// The feature blobs every profile needs: file, feature code, name, and
/// whether `validate` annotates it with the date or serial it holds.
pub open spec fn required_features_of() -> Seq<(Seq<char>, u16, Seq<char>, bool)> {
    seq![
        ("gc_0000.bin"@, 0x0000u16, "Profile List"@, false),
        ("gc_0108.bin"@, 0x0108u16, "Serial Number"@, true),
        ("gc_010c.bin"@, 0x010Cu16, "Firmware Information"@, true),
    ]
}

/// The feature blobs every profile needs (see `required_features_of`).
pub fn required_features() -> (r: Vec<(&'static str, u16, &'static str, bool)>)
    ensures
        Seq::new(r@.len(), |i: int| (r@[i].0@, r@[i].1, r@[i].2@, r@[i].3)) == required_features_of(),
{
    let r = vec![
        ("gc_0000.bin", 0x0000u16, "Profile List", false),
        ("gc_0108.bin", 0x0108u16, "Serial Number", true),
        ("gc_010c.bin", 0x010Cu16, "Firmware Information", true),
    ];
    assert(Seq::new(r@.len(), |i: int| (r@[i].0@, r@[i].1, r@[i].2@, r@[i].3)) =~= required_features_of());
    r
}

} // verus!
