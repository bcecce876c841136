//! The `drive.toml` of a profile directory: the section each line falls in,
//! and what each `key = value` line sets.

use crate::profile_text::{
    buffer_key, parse_buffer_key_span, parse_u16_opt, parse_u16_span, toml_value,
    toml_value_span, u16_text,
};
use crate::text::{chars_of, find_char, first_at, span_is, trim_class, trim_span, ws_trim, Strip};
use vstd::prelude::*;

verus! {

/// The `[section]` a line of `drive.toml` falls in.
#[derive(Clone, Copy)]
pub enum Section {
    Drive,
    Files,
    Features,
    ReadBuffer,
    /// Any other section, and the lines before the first header.
    Other,
}

/// The section a header names.
pub open spec fn section_named(s: Seq<char>) -> Section {
    if s == "drive"@ {
        Section::Drive
    } else if s == "files"@ {
        Section::Files
    } else if s == "features"@ {
        Section::Features
    } else if s == "read_buffer"@ {
        Section::ReadBuffer
    } else {
        Section::Other
    }
}

/// What `drive.toml` configures: the product name, the current profile, and
/// the blob files of the features, the INQUIRY data, the RPC state, the read
/// buffers and the CD/DVD capabilities mode page.
pub struct DriveToml {
    pub name: String,
    pub current_profile: u16,
    pub feature_files: Vec<(u16, String)>,
    pub inquiry_file: String,
    pub rpc_file: String,
    pub rb_files: Vec<(u8, String)>,
    pub mode_2a_file: String,
}

/// A `DriveToml` in mathematical terms.
pub ghost struct TomlModel {
    pub name: Seq<char>,
    pub current_profile: u16,
    pub feature_files: Seq<(u16, Seq<char>)>,
    pub inquiry_file: Seq<char>,
    pub rpc_file: Seq<char>,
    pub rb_files: Seq<(u8, Seq<char>)>,
    pub mode_2a_file: Seq<char>,
}

/// Keyed strings as keyed character sequences.
pub open spec fn keyed<K>(s: Seq<(K, String)>) -> Seq<(K, Seq<char>)> {
    Seq::new(s.len(), |i: int| (s[i].0, s[i].1@))
}

impl DriveToml {
    pub open spec fn model(&self) -> TomlModel {
        TomlModel {
            name: self.name@,
            current_profile: self.current_profile,
            feature_files: keyed(self.feature_files@),
            inquiry_file: self.inquiry_file@,
            rpc_file: self.rpc_file@,
            rb_files: keyed(self.rb_files@),
            mode_2a_file: self.mode_2a_file@,
        }
    }
}

/// The configuration before any line is read: no name, the BD-ROM profile
/// 0x0043, and `inquiry.bin` for the INQUIRY data.
pub open spec fn toml_defaults() -> TomlModel {
    TomlModel {
        name: Seq::empty(),
        current_profile: 0x0043,
        feature_files: Seq::empty(),
        inquiry_file: "inquiry.bin"@,
        rpc_file: Seq::empty(),
        rb_files: Seq::empty(),
        mode_2a_file: Seq::empty(),
    }
}

/// What `key = val` sets in section `sec`. A malformed current profile,
/// feature code or buffer id leaves everything as it was.
pub open spec fn toml_assign(m: TomlModel, sec: Section, key: Seq<char>, val: Seq<char>) -> TomlModel {
    match sec {
        Section::Drive => if key == "product"@ {
            TomlModel { name: val, ..m }
        } else if key == "current_profile"@ {
            match u16_text(val) {
                Some(p) => TomlModel { current_profile: p, ..m },
                None => m,
            }
        } else {
            m
        },
        Section::Files => if key == "inquiry"@ {
            TomlModel { inquiry_file: val, ..m }
        } else if key == "rpc_state"@ {
            TomlModel { rpc_file: val, ..m }
        } else if key == "mode_2a"@ {
            TomlModel { mode_2a_file: val, ..m }
        } else {
            m
        },
        Section::Features => match u16_text(key) {
            Some(c) => TomlModel { feature_files: m.feature_files.push((c, val)), ..m },
            None => m,
        },
        Section::ReadBuffer => match buffer_key(key) {
            Some(id) => TomlModel { rb_files: m.rb_files.push((id, val)), ..m },
            None => m,
        },
        Section::Other => m,
    }
}

/// The configuration and section after one line: blank lines and `#`
/// comments change nothing, `[name]` opens a section, and `key = value`
/// assigns (the key trimmed and stripped of quotes, the value read by
/// `toml_value`); any other line is ignored.
pub open spec fn toml_line(m: TomlModel, sec: Section, line: Seq<char>) -> (TomlModel, Section) {
    let l = ws_trim(line);
    if l.len() == 0 || l[0] == '#' {
        (m, sec)
    } else if l[0] == '[' {
        (m, section_named(trim_class(l, Strip::Bracket)))
    } else {
        let e = first_at(l, '=');
        if e < l.len() {
            (
                toml_assign(
                    m,
                    sec,
                    trim_class(ws_trim(l.take(e)), Strip::Quote),
                    toml_value(l.skip(e + 1)),
                ),
                sec,
            )
        } else {
            (m, sec)
        }
    }
}

/// The configuration after the lines of `s`, split at each `\n`.
pub open spec fn toml_lines(m: TomlModel, sec: Section, s: Seq<char>) -> TomlModel
    decreases s.len(),
{
    let k = first_at(s, '\n');
    if 0 <= k < s.len() {
        let next = toml_line(m, sec, s.take(k));
        toml_lines(next.0, next.1, s.skip(k + 1))
    } else {
        toml_line(m, sec, s).0
    }
}

/// The configuration that the text of a `drive.toml` gives.
pub open spec fn drive_toml(text: Seq<char>) -> TomlModel {
    toml_lines(toml_defaults(), Section::Other, text)
}

fn section_of_span(v: &Vec<char>, from: usize, to: usize) -> (k: Section)
    requires
        from <= to <= v@.len(),
    ensures
        k == section_named(v@.subrange(from as int, to as int)),
{
    if span_is(v, from, to, "drive") {
        Section::Drive
    } else if span_is(v, from, to, "files") {
        Section::Files
    } else if span_is(v, from, to, "features") {
        Section::Features
    } else if span_is(v, from, to, "read_buffer") {
        Section::ReadBuffer
    } else {
        Section::Other
    }
}

proof fn lemma_keyed_push<K>(s: Seq<(K, String)>, x: (K, String))
    ensures
        keyed(s.push(x)) == keyed(s).push((x.0, x.1@)),
{
    assert(keyed(s.push(x)) =~= keyed(s).push((x.0, x.1@)));
}

fn assign(
    cfg: &mut DriveToml,
    sec: Section,
    v: &Vec<char>,
    kf: usize,
    kt: usize,
    val: String,
)
    requires
        kf <= kt <= v@.len(),
    ensures
        final(cfg).model() == toml_assign(old(cfg).model(), sec, v@.subrange(kf as int, kt as int), val@),
{
    match sec {
        Section::Drive => {
            if span_is(v, kf, kt, "product") {
                cfg.name = val;
            } else if span_is(v, kf, kt, "current_profile") {
                match parse_u16_opt(val.as_str()) {
                    Some(p) => {
                        cfg.current_profile = p;
                    },
                    None => {},
                }
            }
        },
        Section::Files => {
            if span_is(v, kf, kt, "inquiry") {
                cfg.inquiry_file = val;
            } else if span_is(v, kf, kt, "rpc_state") {
                cfg.rpc_file = val;
            } else if span_is(v, kf, kt, "mode_2a") {
                cfg.mode_2a_file = val;
            }
        },
        Section::Features => {
            match parse_u16_span(v, kf, kt) {
                Some(c) => {
                    proof {
                        lemma_keyed_push(cfg.feature_files@, (c, val));
                    }
                    cfg.feature_files.push((c, val));
                },
                None => {},
            }
        },
        Section::ReadBuffer => {
            match parse_buffer_key_span(v, kf, kt) {
                Some(id) => {
                    proof {
                        lemma_keyed_push(cfg.rb_files@, (id, val));
                    }
                    cfg.rb_files.push((id, val));
                },
                None => {},
            }
        },
        Section::Other => {},
    }
}

fn apply_line(cfg: &mut DriveToml, sec: &mut Section, v: &Vec<char>, from: usize, to: usize)
    requires
        from <= to <= v@.len(),
    ensures
        (final(cfg).model(), *final(sec)) == toml_line(
            old(cfg).model(),
            *old(sec),
            v@.subrange(from as int, to as int),
        ),
{
    let (a, b) = trim_span(v, from, to, Strip::Space);
    let ghost l = v@.subrange(a as int, b as int);
    if a == b || v[a] == '#' {
        return;
    }
    if v[a] == '[' {
        let (c, d) = trim_span(v, a, b, Strip::Bracket);
        *sec = section_of_span(v, c, d);
        return;
    }
    let e = find_char(v, a, b, '=');
    if e < b {
        proof {
            assert(l.take(e - a) =~= v@.subrange(a as int, e as int));
            assert(l.skip(e - a + 1) =~= v@.subrange(e + 1, b as int));
        }
        let (c1, d1) = trim_span(v, a, e, Strip::Space);
        let (c2, d2) = trim_span(v, c1, d1, Strip::Quote);
        let val = toml_value_span(v, e + 1, b);
        assign(cfg, *sec, v, c2, d2, val);
    }
}

/// Reads the text of a `drive.toml`: the product name and current profile
/// of `[drive]`, the blob files of `[files]`, `[features]` (keyed by feature
/// code) and `[read_buffer]` (keyed by buffer id). Keys that do not parse
/// are skipped, never read as zero.
pub fn parse_drive_toml(text: &str) -> (cfg: DriveToml)
    ensures
        cfg.model() == drive_toml(text@),
{
    let v = chars_of(text);
    let mut cfg = DriveToml {
        name: String::new(),
        current_profile: 0x0043,
        feature_files: Vec::new(),
        inquiry_file: String::from_str("inquiry.bin"),
        rpc_file: String::new(),
        rb_files: Vec::new(),
        mode_2a_file: String::new(),
    };
    proof {
        assert(keyed(cfg.feature_files@) =~= Seq::<(u16, Seq<char>)>::empty());
        assert(keyed(cfg.rb_files@) =~= Seq::<(u8, Seq<char>)>::empty());
        assert(v@.skip(0) =~= v@);
    }
    let mut sec = Section::Other;
    let mut p: usize = 0;
    loop
        invariant
            v@ == text@,
            p <= v@.len(),
            drive_toml(text@) == toml_lines(cfg.model(), sec, v@.skip(p as int)),
        decreases v@.len() - p,
    {
        let n = v.len();
        let k = find_char(&v, p, n, '\n');
        let ghost rest = v@.skip(p as int);
        let ghost before = (cfg.model(), sec);
        proof {
            assert(rest =~= v@.subrange(p as int, n as int));
            assert(rest.take(k - p) =~= v@.subrange(p as int, k as int));
        }
        apply_line(&mut cfg, &mut sec, &v, p, k);
        if k == n {
            assert(rest.take(k - p) =~= rest);
            return cfg;
        }
        proof {
            assert(rest.skip(k - p + 1) =~= v@.skip(k + 1));
        }
        p = k + 1;
    }
}

/// The key of a `key = value` line (trimmed, quotes stripped); `None` for a
/// blank line, a comment, a section header or a line without `=`.
pub open spec fn line_key(line: Seq<char>) -> Option<Seq<char>> {
    let l = ws_trim(line);
    if l.len() == 0 || l[0] == '#' || l[0] == '[' || first_at(l, '=') >= l.len() {
        None
    } else {
        Some(trim_class(ws_trim(l.take(first_at(l, '='))), Strip::Quote))
    }
}

/// The value of a `key = value` line, as `toml_value` reads it.
pub open spec fn line_value(line: Seq<char>) -> Seq<char> {
    let l = ws_trim(line);
    toml_value(l.skip(first_at(l, '=') + 1))
}

/// Which lines a whole-file law is about.
pub enum LineKind {
    /// `current_profile = <value that parses>`.
    Profile,
    /// A line whose key parses as a feature code.
    FeatureKey,
    /// A line whose key parses as a buffer id.
    BufferKey,
}

/// Whether a line is of kind `k`.
pub open spec fn line_is(line: Seq<char>, k: LineKind) -> bool {
    match line_key(line) {
        None => false,
        Some(key) => match k {
            LineKind::Profile => key == "current_profile"@ && u16_text(line_value(line)) is Some,
            LineKind::FeatureKey => u16_text(key) is Some,
            LineKind::BufferKey => buffer_key(key) is Some,
        },
    }
}

/// Whether some line of `s`, split at each `\n` as `toml_lines` splits it,
/// is of kind `k`.
pub open spec fn some_line(s: Seq<char>, k: LineKind) -> bool
    decreases s.len(),
{
    let i = first_at(s, '\n');
    if 0 <= i < s.len() {
        line_is(s.take(i), k) || some_line(s.skip(i + 1), k)
    } else {
        line_is(s, k)
    }
}

/// A line changes the configuration only as its key and value say.
proof fn lemma_line_effect(m: TomlModel, sec: Section, line: Seq<char>)
    ensures
        toml_line(m, sec, line).0 == (match line_key(line) {
            None => m,
            Some(key) => toml_assign(m, sec, key, line_value(line)),
        }),
        line_key(line) is Some ==> toml_line(m, sec, line).1 == sec,
{
}

/// A line that is not of kind `k` leaves what `k` is about as it was.
proof fn lemma_line_keeps(m: TomlModel, sec: Section, line: Seq<char>, k: LineKind)
    requires
        !line_is(line, k),
    ensures
        match k {
            LineKind::Profile => toml_line(m, sec, line).0.current_profile == m.current_profile,
            LineKind::FeatureKey => toml_line(m, sec, line).0.feature_files == m.feature_files,
            LineKind::BufferKey => toml_line(m, sec, line).0.rb_files == m.rb_files,
        },
{
    lemma_line_effect(m, sec, line);
}

proof fn lemma_lines_keep(m: TomlModel, sec: Section, s: Seq<char>, k: LineKind)
    requires
        !some_line(s, k),
    ensures
        match k {
            LineKind::Profile => toml_lines(m, sec, s).current_profile == m.current_profile,
            LineKind::FeatureKey => toml_lines(m, sec, s).feature_files == m.feature_files,
            LineKind::BufferKey => toml_lines(m, sec, s).rb_files == m.rb_files,
        },
    decreases s.len(),
{
    let i = first_at(s, '\n');
    if 0 <= i < s.len() {
        let next = toml_line(m, sec, s.take(i));
        lemma_line_keeps(m, sec, s.take(i), k);
        lemma_lines_keep(next.0, next.1, s.skip(i + 1), k);
    } else {
        lemma_line_keeps(m, sec, s, k);
    }
}

/// A line whose feature code, buffer id or current profile does not parse
/// changes nothing: the key is never read as code 0 or id 0, and the
/// current profile keeps its value.
pub proof fn law_rejected_lines_change_nothing(m: TomlModel, sec: Section, line: Seq<char>)
    requires
        line_key(line) matches Some(key) && ((sec is Features && u16_text(key) is None) || (
        sec is ReadBuffer && buffer_key(key) is None) || (sec is Drive && key == "current_profile"@
            && u16_text(line_value(line)) is None)),
    ensures
        toml_line(m, sec, line) == (m, sec),
{
    reveal_strlit("product");
    reveal_strlit("current_profile");
    lemma_line_effect(m, sec, line);
    assert("current_profile"@.len() != "product"@.len());
}

/// Over a whole `drive.toml`: without a `current_profile` line whose value
/// parses, the current profile is the BD-ROM default 0x0043; without a line
/// whose key parses as a feature code there are no feature files; without
/// one whose key parses as a buffer id there are no read-buffer files.
pub proof fn law_whole_file_defaults(text: Seq<char>)
    ensures
        !some_line(text, LineKind::Profile) ==> drive_toml(text).current_profile == 0x0043,
        !some_line(text, LineKind::FeatureKey) ==> drive_toml(text).feature_files.len() == 0,
        !some_line(text, LineKind::BufferKey) ==> drive_toml(text).rb_files.len() == 0,
{
    if !some_line(text, LineKind::Profile) {
        lemma_lines_keep(toml_defaults(), Section::Other, text, LineKind::Profile);
    }
    if !some_line(text, LineKind::FeatureKey) {
        lemma_lines_keep(toml_defaults(), Section::Other, text, LineKind::FeatureKey);
    }
    if !some_line(text, LineKind::BufferKey) {
        lemma_lines_keep(toml_defaults(), Section::Other, text, LineKind::BufferKey);
    }
}

} // verus!
