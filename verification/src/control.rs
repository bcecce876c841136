//! The control protocol: commands the CLI sends to a running emulator, the
//! emulator's responses, and the disc-state bookkeeping behind them.

use crate::profile::{DiscProfile, LoadedProfile, SectorRange, SECTOR_SIZE, map_wf};
use crate::sanitize::{sanitize_for_terminal, sanitized};
use crate::scsi::{ScsiState, set_media_changed};
use crate::socket_name::{CONTROL_TERMINATOR, INSTANCE_ENV};
use crate::text::{chars_of, push_decimal, push_str, string_of, decimal, trim_span, ws_trim, Strip};
use crate::cli::{reply_outcome, starts_with, texts, ControlOutcome};
use vstd::prelude::*;

verus! {

/// Commands the CLI can send to the running emulator.
pub enum Command {
    Status,
    Eject,
    Load(String),
    ListDiscs,
}

/// Response from the emulator: one or more lines.
pub struct Response {
    pub lines: Vec<String>,
}

/// Whether a disc is loaded, and if so its name (`Loaded(None)`: a disc
/// present from startup without a name).
pub enum DiscState {
    Empty,
    Loaded(Option<String>),
}

/// Shared state between the SCSI handler and the control socket.
pub struct EmulatorState {
    pub profile_dir: String,
    pub disc: DiscState,
}

/// The characters of every line of a response.
pub open spec fn lines_of(r: Response) -> Seq<Seq<char>> {
    r.lines@.map_values(|l: String| l@)
}

/// No line of the response is the terminator line, so a reply cannot look
/// complete before it is.
pub open spec fn never_terminator(r: Response) -> bool {
    forall|i: int| 0 <= i < r.lines@.len() ==> (#[trigger] r.lines@[i])@ != CONTROL_TERMINATOR@
}

/// A line that starts with a letter or a space is not the terminator `.`.
proof fn lemma_not_terminator(l: Seq<char>)
    requires
        l.len() > 0,
        l[0] != '.',
    ensures
        l != CONTROL_TERMINATOR@,
{
    reveal_strlit(".");
}

impl Response {
    /// A one-line success response: `OK <msg>`.
    pub fn ok(msg: &str) -> (r: Self)
        ensures
            lines_of(r) == seq!["OK "@ + msg@],
            never_terminator(r),
    {
        let mut line = String::from_str("OK ");
        push_str(&mut line, msg);
        let mut lines: Vec<String> = Vec::new();
        lines.push(line);
        let r = Response { lines };
        proof {
            reveal_strlit("OK ");
            lemma_not_terminator(r.lines@[0]@);
            assert(lines_of(r) =~= seq!["OK "@ + msg@]);
        }
        r
    }

    /// A one-line failure response: `ERR <msg>`.
    pub fn error(msg: &str) -> (r: Self)
        ensures
            lines_of(r) == seq!["ERR "@ + msg@],
            never_terminator(r),
    {
        let mut line = String::from_str("ERR ");
        push_str(&mut line, msg);
        let mut lines: Vec<String> = Vec::new();
        lines.push(line);
        let r = Response { lines };
        proof {
            reveal_strlit("ERR ");
            lemma_not_terminator(r.lines@[0]@);
            assert(lines_of(r) =~= seq!["ERR "@ + msg@]);
        }
        r
    }

    /// A response made of the given lines.
    pub fn multi(lines: Vec<String>) -> (r: Self)
        ensures
            r.lines == lines,
    {
        Response { lines }
    }
}

impl DiscState {
    /// The loaded disc's name, if it has one.
    pub fn name(&self) -> (r: Option<&str>)
        ensures
            match self {
                DiscState::Loaded(Some(n)) => r is Some && r->0@ == n@,
                _ => r is None,
            },
    {
        match self {
            DiscState::Loaded(Some(name)) => Some(name.as_str()),
            _ => None,
        }
    }
}

// ---------------------------------------------------------------------------
// Parsing a command line
// ---------------------------------------------------------------------------

/// Index of the first space, if any.
pub open spec fn first_space(s: Seq<char>) -> Option<int> {
    if exists|i: int| 0 <= i < s.len() && s[i] == ' ' {
        Some(choose|i: int| 0 <= i < s.len() && s[i] == ' ' && forall|j: int| 0 <= j < i ==> s[j] != ' ')
    } else {
        None
    }
}

/// The command word: everything before the first space.
pub open spec fn command_word(s: Seq<char>) -> Seq<char> {
    match first_space(s) {
        Some(i) => s.take(i),
        None => s,
    }
}

/// The argument: everything after the first space (empty without one).
pub open spec fn command_arg(s: Seq<char>) -> Seq<char> {
    match first_space(s) {
        Some(i) => s.skip(i + 1),
        None => Seq::empty(),
    }
}

/// The index of the first space in `v`, or `v.len()`.
fn find_space(v: &Vec<char>) -> (r: usize)
    ensures
        r <= v@.len(),
        forall|j: int| 0 <= j < r ==> v@[j] != ' ',
        r < v@.len() ==> v@[r as int] == ' ',
{
    let mut i: usize = 0;
    while i < v.len()
        invariant
            i <= v@.len(),
            forall|j: int| 0 <= j < i ==> v@[j] != ' ',
        decreases v@.len() - i,
    {
        if v[i] == ' ' {
            return i;
        }
        i = i + 1;
    }
    i
}

proof fn lemma_first_space(s: Seq<char>, r: int)
    requires
        0 <= r <= s.len(),
        forall|j: int| 0 <= j < r ==> s[j] != ' ',
        r < s.len() ==> s[r] == ' ',
    ensures
        r < s.len() ==> first_space(s) == Some(r),
        r == s.len() ==> first_space(s) is None,
{
    if r < s.len() {
        assert(0 <= r < s.len() && s[r] == ' ');
        let k = choose|i: int| 0 <= i < s.len() && s[i] == ' ' && forall|j: int| 0 <= j < i ==> s[j] != ' ';
        assert(k == r) by {
            if k < r {
                assert(s[k] != ' ');
            } else if k > r {
                assert(s[r] != ' ');
            }
        }
    }
}

/// Whether `v[0..n]` spells `w`.
fn prefix_is(v: &Vec<char>, n: usize, w: &str) -> (b: bool)
    requires
        n <= v@.len(),
    ensures
        b == (v@.take(n as int) == w@),
{
    let wc = chars_of(w);
    if wc.len() != n {
        return false;
    }
    let mut i: usize = 0;
    while i < n
        invariant
            n <= v@.len(),
            wc@ == w@,
            wc@.len() == n,
            i <= n,
            forall|j: int| 0 <= j < i ==> v@[j] == wc@[j],
        decreases n - i,
    {
        if v[i] != wc[i] {
            assert(v@.take(n as int)[i as int] != wc@[i as int]);
            return false;
        }
        i = i + 1;
    }
    assert(v@.take(n as int) =~= wc@);
    true
}

/// Parse one control line: the command word selects the command, and `load`
/// takes the rest of the line as the disc name.
pub fn parse_command(line: &str) -> (r: Option<Command>)
    ensures
        match r {
            Some(Command::Status) => command_word(line@) == "status"@,
            Some(Command::Eject) => command_word(line@) == "eject"@,
            Some(Command::Load(name)) => command_word(line@) == "load"@ && name@ == command_arg(
                line@,
            ),
            Some(Command::ListDiscs) => command_word(line@) == "list-discs"@,
            None => command_word(line@) != "status"@ && command_word(line@) != "eject"@
                && command_word(line@) != "load"@ && command_word(line@) != "list-discs"@,
        },
{
    let v = chars_of(line);
    let sp = find_space(&v);
    proof {
        lemma_first_space(v@, sp as int);
        if sp == v@.len() {
            assert(v@.take(sp as int) =~= v@);
        }
    }
    if prefix_is(&v, sp, "status") {
        Some(Command::Status)
    } else if prefix_is(&v, sp, "eject") {
        Some(Command::Eject)
    } else if prefix_is(&v, sp, "load") {
        let name = if sp < v.len() {
            string_of(&v, sp + 1, v.len())
        } else {
            String::new()
        };
        proof {
            if sp < v@.len() {
                assert(v@.subrange(sp + 1, v@.len() as int) =~= v@.skip(sp + 1));
            }
        }
        Some(Command::Load(name))
    } else if prefix_is(&v, sp, "list-discs") {
        Some(Command::ListDiscs)
    } else {
        None
    }
}

// ---------------------------------------------------------------------------
// Command handlers
// ---------------------------------------------------------------------------

/// The `disc:` line of a status report.
pub open spec fn disc_status(d: DiscState) -> Seq<char> {
    match d {
        DiscState::Loaded(Some(n)) => "loaded ("@ + n@ + ")"@,
        DiscState::Loaded(None) => "loaded (unknown)"@,
        DiscState::Empty => "empty"@,
    }
}

/// `status`: OK, the profile directory and the disc state.
pub fn cmd_status(state: &EmulatorState) -> (r: Response)
    ensures
        lines_of(r) == seq![
            "OK"@,
            "profile: "@ + state.profile_dir@,
            "disc: "@ + disc_status(state.disc),
        ],
        never_terminator(r),
{
    let mut disc_line = String::from_str("disc: ");
    match &state.disc {
        DiscState::Loaded(Some(name)) => {
            push_str(&mut disc_line, "loaded (");
            push_str(&mut disc_line, name.as_str());
            push_str(&mut disc_line, ")");
        },
        DiscState::Loaded(None) => {
            push_str(&mut disc_line, "loaded (unknown)");
        },
        DiscState::Empty => {
            push_str(&mut disc_line, "empty");
        },
    }
    let mut profile_line = String::from_str("profile: ");
    push_str(&mut profile_line, state.profile_dir.as_str());
    let mut lines: Vec<String> = Vec::new();
    lines.push(String::from_str("OK"));
    lines.push(profile_line);
    lines.push(disc_line);
    let r = Response::multi(lines);
    proof {
        reveal_strlit("OK");
        reveal_strlit("profile: ");
        reveal_strlit("disc: ");
        assert(r.lines@[2]@ =~= "disc: "@ + disc_status(state.disc));
        assert(lines_of(r) =~= seq![
            "OK"@,
            "profile: "@ + state.profile_dir@,
            "disc: "@ + disc_status(state.disc),
        ]);
        assert forall|i: int| 0 <= i < r.lines@.len() implies (#[trigger] r.lines@[i])@
            != CONTROL_TERMINATOR@ by {
            assert(r.lines@[i]@ == lines_of(r)[i]);
            lemma_not_terminator(r.lines@[i]@);
        }
    }
    r
}

/// `eject`: remove the disc and signal a media change.
pub fn cmd_eject(
    profile: &mut LoadedProfile,
    state: &mut EmulatorState,
    scsi: &mut ScsiState,
) -> (r: Response)
    ensures
        final(profile).disc is None,
        final(profile).name == old(profile).name,
        final(profile).inquiry == old(profile).inquiry,
        final(profile).current_profile == old(profile).current_profile,
        final(profile).features == old(profile).features,
        final(profile).rpc_state == old(profile).rpc_state,
        final(profile).read_bufs == old(profile).read_bufs,
        final(profile).mode_2a == old(profile).mode_2a,
        final(state).disc is Empty,
        final(state).profile_dir == old(state).profile_dir,
        final(scsi).media_changed,
        final(scsi).new_media_event,
        final(scsi).last_sense == old(scsi).last_sense,
        lines_of(r) == seq!["OK "@ + "ejected"@],
        never_terminator(r),
{
    profile.disc = None;
    state.disc = DiscState::Empty;
    set_media_changed(scsi, true);
    Response::ok("ejected")
}

/// Total sectors of a sparse map.
pub open spec fn map_sectors(m: Seq<SectorRange>) -> int
    decreases m.len(),
{
    if m.len() == 0 {
        0
    } else {
        map_sectors(m.drop_last()) + m.last().1
    }
}

/// Logical sector count of a disc: the range counts of a sparse map, or
/// whole 2048-byte sectors of a flat dump.
pub open spec fn disc_sectors(d: DiscProfile) -> int {
    if d.sector_map@.len() == 0 {
        (d.sectors@.len() / 2048) as int
    } else {
        map_sectors(d.sector_map@)
    }
}

proof fn lemma_map_sectors_nonneg(m: Seq<SectorRange>)
    ensures
        map_sectors(m) >= 0,
    decreases m.len(),
{
    if m.len() > 0 {
        lemma_map_sectors_nonneg(m.drop_last());
    }
}

/// Logical sector count of a loaded disc.
pub fn disc_sector_count(d: &DiscProfile) -> (n: usize)
    requires
        map_sectors(d.sector_map@) <= usize::MAX,
    ensures
        n == disc_sectors(*d),
{
    if d.sector_map.len() == 0 {
        d.sectors.len() / SECTOR_SIZE
    } else {
        let mut total: usize = 0;
        let mut i: usize = 0;
        while i < d.sector_map.len()
            invariant
                i <= d.sector_map@.len(),
                map_sectors(d.sector_map@) <= usize::MAX,
                total == map_sectors(d.sector_map@.take(i as int)),
            decreases d.sector_map@.len() - i,
        {
            proof {
                let m = d.sector_map@;
                assert(m.take(i + 1).drop_last() =~= m.take(i as int));
                lemma_map_sectors_prefix(m, i + 1);
            }
            total = total + d.sector_map[i].1 as usize;
            i = i + 1;
        }
        proof {
            assert(d.sector_map@.take(d.sector_map@.len() as int) =~= d.sector_map@);
        }
        total
    }
}

/// A prefix of a map holds no more sectors than the map.
proof fn lemma_map_sectors_prefix(m: Seq<SectorRange>, k: int)
    requires
        0 <= k <= m.len(),
    ensures
        map_sectors(m.take(k)) <= map_sectors(m),
    decreases m.len(),
{
    if k < m.len() {
        assert(m.drop_last().take(k) =~= m.take(k));
        lemma_map_sectors_prefix(m.drop_last(), k);
    } else {
        assert(m.take(k) =~= m);
    }
}

/// The success message of `load`.
pub open spec fn load_message(name: Seq<char>, sectors: nat) -> Seq<char> {
    "loaded '"@ + name + "' ("@ + decimal(sectors) + " sectors)"@
}

/// `load <name>` once the disc directory was resolved and read: `disc` is
/// the disc read from `discs/<name>`, or `None` when the name did not name a
/// directory contained in the profile's discs directory.
pub fn cmd_load(
    profile: &mut LoadedProfile,
    state: &mut EmulatorState,
    scsi: &mut ScsiState,
    name: &str,
    disc: Option<DiscProfile>,
) -> (r: Response)
    requires
        disc matches Some(d) ==> map_wf(d.sector_map@) && map_sectors(d.sector_map@) <= usize::MAX,
    ensures
        name@.len() == 0 ==> {
            &&& lines_of(r) == seq!["ERR "@ + "usage: load <disc_name>"@]
            &&& *final(profile) == *old(profile)
            &&& *final(state) == *old(state)
            &&& *final(scsi) == *old(scsi)
        },
        name@.len() > 0 && disc is None ==> {
            &&& lines_of(r) == seq!["ERR "@ + "invalid disc name"@]
            &&& *final(profile) == *old(profile)
            &&& *final(state) == *old(state)
            &&& *final(scsi) == *old(scsi)
        },
        name@.len() > 0 && disc is Some ==> {
            &&& final(profile).disc == disc
            &&& final(profile).features == old(profile).features
            &&& final(profile).inquiry == old(profile).inquiry
            &&& final(state).disc matches DiscState::Loaded(Some(n)) && n@ == name@
            &&& final(state).profile_dir == old(state).profile_dir
            &&& final(scsi).media_changed
            &&& final(scsi).new_media_event
            &&& lines_of(r) == seq!["OK "@ + load_message(name@, disc_sectors(disc->0) as nat)]
        },
        never_terminator(r),
{
    if name.is_empty() {
        return Response::error("usage: load <disc_name>");
    }
    match disc {
        None => Response::error("invalid disc name"),
        Some(d) => {
            proof {
                lemma_map_sectors_nonneg(d.sector_map@);
            }
            let count = disc_sector_count(&d);
            profile.disc = Some(d);
            state.disc = DiscState::Loaded(Some(String::from_str(name)));
            set_media_changed(scsi, true);
            let mut msg = String::from_str("loaded '");
            push_str(&mut msg, name);
            push_str(&mut msg, "' (");
            push_decimal(&mut msg, count as u64);
            push_str(&mut msg, " sectors)");
            assert(msg@ =~= load_message(name@, count as nat));
            Response::ok(msg.as_str())
        },
    }
}

/// One `list-discs` entry: the sanitised name, ` *` for the loaded disc
/// (compared on the raw name), and whether it holds `sectors.bin`.
pub open spec fn disc_list_line(name: Seq<char>, loaded: Option<Seq<char>>, has_sectors: bool) -> Seq<char> {
    "  "@ + sanitized(name) + (if loaded == Some(name) { " *"@ } else { ""@ }) + " (sectors="@
        + (if has_sectors { "true"@ } else { "false"@ }) + ")"@
}

/// `list-discs` once the discs directory was read: `None` when there is no
/// discs directory, otherwise each subdirectory's name and whether it holds
/// `sectors.bin`.
pub fn list_discs_response(entries: Option<&Vec<(String, bool)>>, loaded: Option<&str>) -> (r: Response)
    ensures
        entries is None ==> lines_of(r) == seq!["OK"@, "no discs directory"@],
        entries matches Some(es) ==> {
            &&& lines_of(r).len() == es@.len() + 1
            &&& lines_of(r)[0] == "OK"@
            &&& forall|i: int| 0 <= i < es@.len() ==> lines_of(r)[i + 1] == disc_list_line(
                (#[trigger] es@[i]).0@,
                match loaded { Some(l) => Some(l@), None => None },
                es@[i].1,
            )
        },
        never_terminator(r),
{
    let mut lines: Vec<String> = Vec::new();
    lines.push(String::from_str("OK"));
    proof {
        reveal_strlit("OK");
        lemma_not_terminator("OK"@);
    }
    match entries {
        None => {
            lines.push(String::from_str("no discs directory"));
            proof {
                reveal_strlit("no discs directory");
                lemma_not_terminator("no discs directory"@);
            }
            let r = Response::multi(lines);
            assert(lines_of(r) =~= seq!["OK"@, "no discs directory"@]);
            r
        },
        Some(es) => {
            let ghost lv: Option<Seq<char>> = match loaded { Some(l) => Some(l@), None => None };
            let mut i: usize = 0;
            while i < es.len()
                invariant
                    i <= es@.len(),
                    lv == (match loaded { Some(l) => Some(l@), None => None::<Seq<char>> }),
                    lines@.len() == i + 1,
                    lines@[0]@ == "OK"@,
                    forall|j: int| 0 <= j < i ==> (#[trigger] lines@[j + 1])@ == disc_list_line(
                        es@[j].0@,
                        lv,
                        es@[j].1,
                    ),
                    forall|j: int| 0 <= j < lines@.len() ==> (#[trigger] lines@[j])@ != CONTROL_TERMINATOR@,
                decreases es@.len() - i,
            {
                let name = es[i].0.as_str();
                let is_loaded = match loaded {
                    Some(l) => str_eq(l, name),
                    None => false,
                };
                let mut line = String::from_str("  ");
                push_str(&mut line, sanitize_for_terminal(name).as_str());
                if is_loaded {
                    push_str(&mut line, " *");
                } else {
                    push_str(&mut line, "");
                }
                push_str(&mut line, " (sectors=");
                if es[i].1 {
                    push_str(&mut line, "true");
                } else {
                    push_str(&mut line, "false");
                }
                push_str(&mut line, ")");
                proof {
                    reveal_strlit("  ");
                    assert(line@ == disc_list_line(es@[i as int].0@, lv, es@[i as int].1));
                    lemma_not_terminator(line@);
                }
                lines.push(line);
                i = i + 1;
            }
            let r = Response::multi(lines);
            proof {
                assert forall|j: int| 0 <= j < es@.len() implies lines_of(r)[j + 1] == disc_list_line(
                    (#[trigger] es@[j]).0@,
                    lv,
                    es@[j].1,
                ) by {
                    assert(lines_of(r)[j + 1] == r.lines@[j + 1]@);
                }
            }
            r
        },
    }
}

/// Whether two strings are equal.
pub fn str_eq(a: &str, b: &str) -> (r: bool)
    ensures
        r == (a@ == b@),
{
    let va = chars_of(a);
    let vb = chars_of(b);
    if va.len() != vb.len() {
        return false;
    }
    let mut i: usize = 0;
    while i < va.len()
        invariant
            va@ == a@,
            vb@ == b@,
            va@.len() == vb@.len(),
            i <= va@.len(),
            forall|j: int| 0 <= j < i ==> va@[j] == vb@[j],
        decreases va@.len() - i,
    {
        if va[i] != vb[i] {
            return false;
        }
        i = i + 1;
    }
    assert(va@ =~= vb@);
    true
}

// ---------------------------------------------------------------------------
// One request, and the reply on the wire
// ---------------------------------------------------------------------------

/// The refusal of a line that names no command.
pub open spec fn unknown_command_lines(t: Seq<char>) -> Seq<Seq<char>> {
    seq!["ERR "@ + ("unknown command: "@ + t)]
}

/// The command of a received control line (trimmed first), or the
/// response refusing it: `ERR unknown command: <line>`.
pub fn request_of(line: &str) -> (r: Result<Command, Response>)
    ensures
        match r {
            Ok(Command::Status) => command_word(ws_trim(line@)) == "status"@,
            Ok(Command::Eject) => command_word(ws_trim(line@)) == "eject"@,
            Ok(Command::Load(name)) => command_word(ws_trim(line@)) == "load"@ && name@
                == command_arg(ws_trim(line@)),
            Ok(Command::ListDiscs) => command_word(ws_trim(line@)) == "list-discs"@,
            Err(resp) => command_word(ws_trim(line@)) != "status"@ && command_word(ws_trim(line@))
                != "eject"@ && command_word(ws_trim(line@)) != "load"@ && command_word(
                ws_trim(line@),
            ) != "list-discs"@ && lines_of(resp) == unknown_command_lines(ws_trim(line@))
                && never_terminator(resp),
        },
{
    let v = chars_of(line);
    assert(v@.subrange(0, v@.len() as int) =~= line@);
    let (a, b) = trim_span(&v, 0, v.len(), Strip::Space);
    let t = string_of(&v, a, b);
    match parse_command(t.as_str()) {
        Some(c) => Ok(c),
        None => {
            let mut msg = String::from_str("unknown command: ");
            push_str(&mut msg, t.as_str());
            proof {
                reveal_strlit("unknown command: ");
            }
            Err(Response::error(msg.as_str()))
        },
    }
}

/// The lines of a reply on the wire: the response's lines, then the
/// terminator.
pub open spec fn framed(lines: Seq<Seq<char>>) -> Seq<Seq<char>> {
    lines.push(CONTROL_TERMINATOR@)
}

/// What a reader takes from the wire: the lines before the first
/// terminator, and whether a terminator came.
pub open spec fn reply_read(wire: Seq<Seq<char>>) -> (Seq<Seq<char>>, bool)
    decreases wire.len(),
{
    if wire.len() == 0 {
        (Seq::empty(), false)
    } else if wire[0] == CONTROL_TERMINATOR@ {
        (Seq::empty(), true)
    } else {
        let rest = reply_read(wire.drop_first());
        (seq![wire[0]] + rest.0, rest.1)
    }
}

/// The lines to write for a response: its own, then the terminator.
pub fn frame_response(r: &Response) -> (w: Vec<String>)
    ensures
        texts(w@) == framed(lines_of(*r)),
{
    let mut w: Vec<String> = Vec::new();
    let mut i: usize = 0;
    while i < r.lines.len()
        invariant
            i <= r.lines@.len(),
            w@.len() == i,
            forall|k: int| 0 <= k < i ==> (#[trigger] w@[k])@ == r.lines@[k]@,
        decreases r.lines@.len() - i,
    {
        let line = r.lines[i].clone();
        w.push(line);
        i = i + 1;
    }
    w.push(String::from_str(CONTROL_TERMINATOR));
    assert(texts(w@) =~= framed(lines_of(*r)));
    w
}

/// Whether a received line is the terminator.
pub fn is_terminator(line: &str) -> (b: bool)
    ensures
        b == (line@ == CONTROL_TERMINATOR@),
{
    str_eq(line, CONTROL_TERMINATOR)
}

/// Reads a reply from the lines received: those before the first
/// terminator, and whether a terminator came.
pub fn read_reply(wire: &[String]) -> (r: (Vec<String>, bool))
    ensures
        (texts(r.0@), r.1) == reply_read(texts(wire@)),
{
    let ghost t = texts(wire@);
    let mut out: Vec<String> = Vec::new();
    let mut i: usize = 0;
    assert(t.skip(0) =~= t);
    while i < wire.len()
        invariant
            t == texts(wire@),
            i <= wire@.len(),
            reply_read(t) == (texts(out@) + reply_read(t.skip(i as int)).0, reply_read(t.skip(i as int)).1),
        decreases wire@.len() - i,
    {
        let ghost rest = t.skip(i as int);
        assert(rest[0] == wire@[i as int]@);
        if is_terminator(wire[i].as_str()) {
            assert(texts(out@) + Seq::<Seq<char>>::empty() =~= texts(out@));
            return (out, true);
        }
        assert(rest.drop_first() =~= t.skip(i + 1));
        let ghost before = texts(out@);
        out.push(wire[i].clone());
        proof {
            let rr = reply_read(t.skip(i + 1));
            assert(texts(out@) =~= before.push(wire@[i as int]@));
            assert(before + (seq![rest[0]] + rr.0) =~= texts(out@) + rr.0);
        }
        i = i + 1;
    }
    assert(t.skip(i as int).len() == 0);
    assert(texts(out@) + Seq::<Seq<char>>::empty() =~= texts(out@));
    (out, false)
}

/// A reply read back from the wire is exactly the response written, and is
/// known to be complete, whenever no line of it is the terminator.
pub proof fn lemma_reply_reads_back(lines: Seq<Seq<char>>)
    requires
        forall|i: int| 0 <= i < lines.len() ==> #[trigger] lines[i] != CONTROL_TERMINATOR@,
    ensures
        reply_read(framed(lines)) == (lines, true),
    decreases lines.len(),
{
    if lines.len() == 0 {
        assert(framed(lines)[0] == CONTROL_TERMINATOR@);
    } else {
        let rest = lines.drop_first();
        assert forall|i: int| 0 <= i < rest.len() implies #[trigger] rest[i] != CONTROL_TERMINATOR@ by {
            assert(rest[i] == lines[i + 1]);
        }
        lemma_reply_reads_back(rest);
        assert(framed(lines).drop_first() =~= framed(rest));
        assert(framed(lines)[0] == lines[0]);
        assert(seq![lines[0]] + rest =~= lines);
    }
}

/// A one-line refusal the emulator writes is read by the CLI as a complete
/// reply and judged a failure; a one-line `OK` reply is judged a success.
pub proof fn law_replies_are_judged_as_sent(msg: Seq<char>)
    ensures
        reply_read(framed(seq!["ERR "@ + msg])) == (seq!["ERR "@ + msg], true),
        reply_outcome(seq!["ERR "@ + msg], true) == ControlOutcome::Error,
        reply_read(framed(seq!["OK "@ + msg])) == (seq!["OK "@ + msg], true),
        reply_outcome(seq!["OK "@ + msg], true) == ControlOutcome::Success,
{
    reveal_strlit("ERR ");
    reveal_strlit("OK ");
    reveal_strlit("OK");
    let e = "ERR "@ + msg;
    let o = "OK "@ + msg;
    lemma_not_terminator(e);
    lemma_not_terminator(o);
    lemma_reply_reads_back(seq![e]);
    lemma_reply_reads_back(seq![o]);
    assert(starts_with(e, "ERR "@)) by {
        assert("ERR "@ =~= e.take(4));
    }
    assert(seq![e][0] == e);
    assert(starts_with(o, "OK"@)) by {
        assert("OK"@ =~= o.take(2));
    }
    assert(!starts_with(o, "ERR "@)) by {
        assert(o[0] == 'O');
    }
    assert forall|i: int| 0 <= i < seq![o].len() implies !starts_with(#[trigger] seq![o][i], "ERR "@) by {
        assert(seq![o][i] == o);
    }
}

/// What to do about the control-socket path before binding it.
pub enum Reclaim {
    /// Nothing is there: bind.
    Free,
    /// A live emulator answers there: refuse, with this reason.
    Refuse(String),
    /// Something is there but nothing answers: remove it, then bind.
    RemoveStale,
}

/// The reason for refusing a path a running emulator is serving.
pub open spec fn in_use_message(path: Seq<char>) -> Seq<char> {
    path + " is already in use by a running emulator; refusing to steal it. Set "@ + INSTANCE_ENV@
        + "=<id> to give this instance its own socket."@
}

/// Decides about the control-socket path from what is there: a socket a
/// live peer answers on is never taken over; a leftover one is reclaimed.
pub fn reclaim_decision(path: &str, exists: bool, live_peer: bool) -> (r: Reclaim)
    ensures
        !exists ==> r is Free,
        exists && live_peer ==> (r matches Reclaim::Refuse(m) && m@ == in_use_message(path@)),
        exists && !live_peer ==> r is RemoveStale,
{
    if !exists {
        return Reclaim::Free;
    }
    if live_peer {
        let mut m = String::new();
        push_str(&mut m, path);
        push_str(&mut m, " is already in use by a running emulator; refusing to steal it. Set ");
        push_str(&mut m, INSTANCE_ENV);
        push_str(&mut m, "=<id> to give this instance its own socket.");
        return Reclaim::Refuse(m);
    }
    Reclaim::RemoveStale
}

/// Whether a disc can be loaded: its map can be binary-searched and its
/// sector count fits a `usize`.
pub fn disc_can_load(d: &DiscProfile) -> (b: bool)
    ensures
        b == (map_wf(d.sector_map@) && map_sectors(d.sector_map@) <= usize::MAX),
{
    if !crate::profile::sector_map_ok(&d.sector_map) {
        return false;
    }
    let m = &d.sector_map;
    let mut acc: usize = 0;
    let mut i: usize = 0;
    assert(m@.take(0) =~= Seq::<SectorRange>::empty());
    while i < m.len()
        invariant
            m@ == d.sector_map@,
            map_wf(d.sector_map@),
            i <= m@.len(),
            acc as int == map_sectors(m@.take(i as int)),
        decreases m@.len() - i,
    {
        assert(m@.take(i + 1).drop_last() =~= m@.take(i as int));
        assert(m@.take(i + 1).last() == m@[i as int]);
        assert(map_sectors(m@.take(i + 1)) == map_sectors(m@.take(i as int)) + m@[i as int].1);
        let c = m[i].1 as usize;
        if acc > usize::MAX - c {
            proof {
                lemma_map_sectors_prefix(m@, i + 1);
            }
            return false;
        }
        acc = acc + c;
        i = i + 1;
    }
    assert(m@.take(m@.len() as int) =~= m@);
    true
}

} // verus!
