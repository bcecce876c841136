//! The decisions of a disc capture: which SCSI structures to save, how a
//! range is read in chunks, what a short read leaves in the reused buffer,
//! the BDSM table written ahead of the sector data, whether the fixture is
//! complete, and the directory name a clean capture is renamed to.

use crate::text::{chars_of, decimal, push_char, push_decimal, push_str, string_of, trim_class, trim_span, Strip};
use vstd::prelude::*;

verus! {

/// The number of sectors of the next read: `chunk`, or what remains of the
/// range when that is less.
pub open spec fn chunk_len(lba: u32, end: u32, chunk: u16) -> int {
    if (end - lba) < chunk as int {
        end - lba
    } else {
        chunk as int
    }
}

/// Number of sectors to read next: at most `chunk`, never more than
/// `end - lba`. The clamp is made before narrowing to `u16`, so a remaining
/// count that is a multiple of 65536 never reads as zero.
pub fn next_chunk(lba: u32, end: u32, chunk: u16) -> (n: u16)
    requires
        lba <= end,
    ensures
        n as int == chunk_len(lba, end, chunk),
        lba < end && chunk > 0 ==> n > 0,
        lba + n <= end,
{
    let remaining = end - lba;
    if remaining < chunk as u32 {
        remaining as u16
    } else {
        chunk
    }
}

/// The smaller of two lengths.
pub open spec fn min_len(a: int, b: int) -> int {
    if a < b {
        a
    } else {
        b
    }
}

/// The buffer after a read that transferred `transferred` bytes: what was
/// filled is kept, the rest is zero. A transfer larger than the buffer
/// counts as filling it.
pub open spec fn after_transfer(buf: Seq<u8>, transferred: int) -> Seq<u8> {
    let f = min_len(transferred, buf.len() as int);
    buf.take(f) + Seq::new((buf.len() - f) as nat, |i: int| 0u8)
}

/// Zeroes the part of a reused read buffer past the bytes transferred, so
/// that a short read leaves zeros rather than the previous chunk's data.
pub fn zero_fill_tail(buf: &mut Vec<u8>, transferred: usize)
    ensures
        final(buf)@ == after_transfer(old(buf)@, transferred as int),
{
    let n = buf.len();
    let filled = if transferred < n {
        transferred
    } else {
        n
    };
    let mut i = filled;
    while i < n
        invariant
            filled <= i <= n,
            n == buf@.len(),
            n == old(buf)@.len(),
            filled as int == min_len(transferred as int, n as int),
            forall|j: int| 0 <= j < filled ==> buf@[j] == old(buf)@[j],
            forall|j: int| filled <= j < i ==> buf@[j] == 0,
        decreases n - i,
    {
        buf.set(i, 0);
        i = i + 1;
    }
    assert(buf@ =~= after_transfer(old(buf)@, transferred as int));
}

/// `"s"` unless the count is one.
pub open spec fn plural(n: nat) -> Seq<char> {
    if n == 1 {
        Seq::empty()
    } else {
        "s"@
    }
}

/// Why a capture is incomplete: read errors first, then lost structures.
pub open spec fn incomplete_message(read_errors: nat, metadata_errors: nat) -> Seq<char> {
    if read_errors > 0 {
        decimal(read_errors) + " sector read error"@ + plural(read_errors)
            + " — fixture incomplete (bad sectors zero-filled)"@
    } else {
        decimal(metadata_errors) + " required SCSI structure"@ + plural(metadata_errors)
            + " failed — fixture incomplete"@
    }
}

fn push_plural(s: &mut String, n: u32)
    ensures
        final(s)@ == old(s)@ + plural(n as nat),
{
    if n != 1 {
        push_str(s, "s");
        proof {
            reveal_strlit("s");
        }
    } else {
        assert(old(s)@ + plural(n as nat) =~= old(s)@);
    }
}

/// The outcome of a capture: complete when no sector failed to read and no
/// required SCSI structure was lost; otherwise an error saying which.
pub fn fixture_result(read_errors: u32, metadata_errors: u32) -> (r: Result<(), String>)
    ensures
        match r {
            Ok(()) => read_errors == 0 && metadata_errors == 0,
            Err(e) => (read_errors > 0 || metadata_errors > 0) && e@ == incomplete_message(
                read_errors as nat,
                metadata_errors as nat,
            ),
        },
{
    if read_errors > 0 {
        let mut s = String::new();
        push_decimal(&mut s, read_errors as u64);
        push_str(&mut s, " sector read error");
        push_plural(&mut s, read_errors);
        push_str(&mut s, " — fixture incomplete (bad sectors zero-filled)");
        assert(s@ =~= incomplete_message(read_errors as nat, metadata_errors as nat));
        Err(s)
    } else if metadata_errors > 0 {
        let mut s = String::new();
        push_decimal(&mut s, metadata_errors as u64);
        push_str(&mut s, " required SCSI structure");
        push_plural(&mut s, metadata_errors);
        push_str(&mut s, " failed — fixture incomplete");
        assert(s@ =~= incomplete_message(read_errors as nat, metadata_errors as nat));
        Err(s)
    } else {
        Ok(())
    }
}

/// What `str::to_lowercase` gives for a string.
pub uninterp spec fn lowercased(s: Seq<char>) -> Seq<char>;

/// `str::to_lowercase`: its result is named `lowercased` of the input and
/// nothing more is claimed of it.
#[verifier::external_body]
fn to_lowercase(s: &str) -> (r: String)
    ensures
        r@ == lowercased(s@),
{
    s.to_lowercase()
}

/// Whether `c` is an ASCII letter or digit.
pub open spec fn ascii_alnum(c: char) -> bool {
    ('a' <= c && c <= 'z') || ('A' <= c && c <= 'Z') || ('0' <= c && c <= '9')
}

/// Every character that is not an ASCII letter or digit made `_`, then the
/// leading and trailing `_` removed.
pub open spec fn slug_of(s: Seq<char>) -> Seq<char> {
    trim_class(s.map_values(|c: char| if ascii_alnum(c) { c } else { '_' }), Strip::Underscore)
}

/// The slug of text that is already lower case (see `slug_of`).
pub fn slug_from_lowercase(lower: &str) -> (r: String)
    ensures
        r@ == slug_of(lower@),
{
    let v = chars_of(lower);
    let mut m: Vec<char> = Vec::new();
    let mut i: usize = 0;
    while i < v.len()
        invariant
            v@ == lower@,
            i <= v@.len(),
            m@ == v@.take(i as int).map_values(|c: char| if ascii_alnum(c) { c } else { '_' }),
        decreases v@.len() - i,
    {
        let c = v[i];
        let is_alnum = ('a' <= c && c <= 'z') || ('A' <= c && c <= 'Z') || ('0' <= c && c <= '9');
        if is_alnum {
            m.push(c);
        } else {
            m.push('_');
        }
        i = i + 1;
        assert(m@ =~= v@.take(i as int).map_values(
            |c: char| if ascii_alnum(c) { c } else { '_' },
        ));
    }
    assert(v@.take(v@.len() as int) =~= lower@);
    let (a, b) = trim_span(&m, 0, m.len(), Strip::Underscore);
    assert(m@.subrange(0, m@.len() as int) =~= m@);
    string_of(&m, a, b)
}

/// The directory name for a disc's volume id: lower-cased, every character
/// that is not an ASCII letter or digit made `_`, and leading and trailing
/// `_` removed. No `/`, `\`, `.` or NUL survives, so the name cannot leave
/// the directory it is joined to.
pub fn slugify(name: &str) -> (r: String)
    ensures
        r@ == slug_of(lowercased(name@)),
        forall|i: int| 0 <= i < r@.len() ==> ascii_alnum(#[trigger] r@[i]) || r@[i] == '_',
{
    let lower = to_lowercase(name);
    let r = slug_from_lowercase(lower.as_str());
    proof {
        lemma_slug_chars(lowercased(name@));
    }
    r
}

/// A slug holds only ASCII letters, digits and `_`.
pub proof fn lemma_slug_chars(s: Seq<char>)
    ensures
        forall|i: int|
            0 <= i < slug_of(s).len() ==> ascii_alnum(#[trigger] slug_of(s)[i]) || slug_of(s)[i]
                == '_',
{
    let m = s.map_values(|c: char| if ascii_alnum(c) { c } else { '_' });
    assert forall|j: int| 0 <= j < m.len() implies ascii_alnum(#[trigger] m[j]) || m[j] == '_' by {}
    let from = crate::text::kept_from(m, Strip::Underscore);
    let t = m.subrange(from, m.len() as int);
    let to = crate::text::kept_to(t, Strip::Underscore);
    if 0 <= from <= m.len() && 0 <= to <= t.len() {
        assert forall|i: int| 0 <= i < slug_of(s).len() implies ascii_alnum(
            #[trigger] slug_of(s)[i],
        ) || slug_of(s)[i] == '_' by {
            assert(slug_of(s)[i] == m[from + i]);
        }
    } else {
        lemma_trim_bounds(m, Strip::Underscore);
    }
}

/// The trimming positions are always in range.
proof fn lemma_trim_bounds(s: Seq<char>, k: Strip)
    ensures
        0 <= crate::text::kept_from(s, k) <= s.len(),
        0 <= crate::text::kept_to(s.subrange(crate::text::kept_from(s, k), s.len() as int), k)
            <= s.len() - crate::text::kept_from(s, k),
{
    lemma_lead_exists(s, k, 0);
    let f = crate::text::kept_from(s, k);
    let t = s.subrange(f, s.len() as int);
    lemma_trail_exists(t, k, t.len() as int);
}

/// A leading run of `k`-characters ends somewhere.
proof fn lemma_lead_exists(s: Seq<char>, k: Strip, i: int)
    requires
        0 <= i <= s.len(),
        forall|j: int| 0 <= j < i ==> crate::text::strips(k, #[trigger] s[j]),
    ensures
        crate::text::lead_end(s, k, crate::text::kept_from(s, k)),
    decreases s.len() - i,
{
    if i < s.len() && crate::text::strips(k, s[i]) {
        lemma_lead_exists(s, k, i + 1);
    } else {
        assert(crate::text::lead_end(s, k, i));
    }
}

/// A trailing run of `k`-characters starts somewhere.
proof fn lemma_trail_exists(s: Seq<char>, k: Strip, e: int)
    requires
        0 <= e <= s.len(),
        forall|j: int| e <= j < s.len() ==> crate::text::strips(k, #[trigger] s[j]),
    ensures
        crate::text::trail_start(s, k, crate::text::kept_to(s, k)),
    decreases e,
{
    if e > 0 && crate::text::strips(k, s[e - 1]) {
        lemma_trail_exists(s, k, e - 1);
    } else {
        assert(crate::text::trail_start(s, k, e));
    }
}

/// The name tried for the capture directory at `attempt` (from zero): the
/// slug itself, then `slug_2`, `slug_3`, ...
pub open spec fn rename_candidate_of(slug: Seq<char>, attempt: nat) -> Seq<char> {
    if attempt == 0 {
        slug
    } else {
        slug + "_"@ + decimal(attempt + 1)
    }
}

/// The name tried for the capture directory at `attempt` (see
/// `rename_candidate_of`).
pub fn rename_candidate(slug: &str, attempt: u32) -> (r: String)
    ensures
        r@ == rename_candidate_of(slug@, attempt as nat),
{
    let mut s = String::new();
    push_str(&mut s, slug);
    if attempt > 0 {
        push_char(&mut s, '_');
        push_decimal(&mut s, attempt as u64 + 1);
        proof {
            reveal_strlit("_");
            assert(s@ =~= rename_candidate_of(slug@, attempt as nat));
        }
    } else {
        assert(s@ =~= slug@);
    }
    s
}

/// One step of the search for a free directory name: while the candidate
/// at `attempt` exists and is not the capture directory itself, the next
/// attempt is tried; otherwise the search stops at `attempt` (`None`).
pub fn next_rename_attempt(attempt: u32, candidate_exists: bool, candidate_is_output: bool) -> (r:
    Option<u32>)
    requires
        attempt < u32::MAX,
    ensures
        r == (if candidate_exists && !candidate_is_output {
            Some((attempt + 1) as u32)
        } else {
            None::<u32>
        }),
{
    if candidate_exists && !candidate_is_output {
        Some(attempt + 1)
    } else {
        None
    }
}

/// A range as the capture writes it: the sector count cut so the range
/// ends by LBA `u32::MAX`.
pub open spec fn normalized(r: (u32, u32)) -> (u32, u32) {
    if r.0 + r.1 > u32::MAX {
        (r.0, (u32::MAX - r.0) as u32)
    } else {
        r
    }
}

/// The ranges a capture writes, each cut as `normalized` says.
pub open spec fn normalized_ranges(raw: Seq<(u32, u32)>) -> Seq<(u32, u32)> {
    raw.map_values(|r: (u32, u32)| normalized(r))
}

/// Cuts each range so that it ends by LBA `u32::MAX`; the table, the total
/// and the bytes written then agree.
pub fn normalize_ranges(raw: &Vec<(u32, u32)>) -> (r: Vec<(u32, u32)>)
    ensures
        r@ == normalized_ranges(raw@),
{
    let mut out: Vec<(u32, u32)> = Vec::new();
    let mut i: usize = 0;
    while i < raw.len()
        invariant
            i <= raw@.len(),
            out@ == raw@.take(i as int).map_values(|r: (u32, u32)| normalized(r)),
        decreases raw@.len() - i,
    {
        let (start, count) = raw[i];
        let written = start.saturating_add(count) - start;
        out.push((start, written));
        i = i + 1;
        assert(out@ =~= raw@.take(i as int).map_values(|r: (u32, u32)| normalized(r)));
    }
    assert(raw@.take(raw@.len() as int) =~= raw@);
    out
}

/// The sum of the sector counts, saturating at `u32::MAX`.
pub open spec fn saturating_total(rs: Seq<(u32, u32)>) -> int
    decreases rs.len(),
{
    if rs.len() == 0 {
        0
    } else {
        let t = saturating_total(rs.drop_last()) + rs.last().1;
        if t > u32::MAX {
            u32::MAX as int
        } else {
            t
        }
    }
}

/// The number of sectors the ranges hold, saturating at `u32::MAX`.
pub fn sector_total(ranges: &Vec<(u32, u32)>) -> (t: u32)
    ensures
        t as int == saturating_total(ranges@),
{
    let mut t: u32 = 0;
    let mut i: usize = 0;
    while i < ranges.len()
        invariant
            i <= ranges@.len(),
            t as int == saturating_total(ranges@.take(i as int)),
        decreases ranges@.len() - i,
    {
        proof {
            assert(ranges@.take(i + 1).drop_last() =~= ranges@.take(i as int));
        }
        t = t.saturating_add(ranges[i].1);
        i = i + 1;
    }
    assert(ranges@.take(ranges@.len() as int) =~= ranges@);
    t
}

/// The four little-endian bytes of `x`.
pub open spec fn le32(x: u32) -> Seq<u8> {
    seq![
        (x % 256) as u8,
        ((x / 256) % 256) as u8,
        ((x / 65536) % 256) as u8,
        (x / 16777216) as u8,
    ]
}

/// The range table of a BDSM file: each range's first LBA and count.
pub open spec fn range_table(rs: Seq<(u32, u32)>) -> Seq<u8>
    decreases rs.len(),
{
    if rs.len() == 0 {
        Seq::empty()
    } else {
        range_table(rs.drop_last()) + le32(rs.last().0) + le32(rs.last().1)
    }
}

/// The head of a BDSM file: the magic `BDSM`, version 1, the number of
/// ranges and the range table. The sector data follows it, range by range.
pub open spec fn bdsm_head(rs: Seq<(u32, u32)>) -> Seq<u8> {
    seq![0x42u8, 0x44u8, 0x53u8, 0x4Du8] + le32(1) + le32(rs.len() as u32) + range_table(rs)
}

fn push_le32(v: &mut Vec<u8>, x: u32)
    ensures
        final(v)@ == old(v)@ + le32(x),
{
    v.push((x % 256) as u8);
    v.push(((x / 256) % 256) as u8);
    v.push(((x / 65536) % 256) as u8);
    v.push((x / 16777216) as u8);
    assert(final(v)@ =~= old(v)@ + le32(x));
}

/// The head of the BDSM file for `ranges` (see `bdsm_head`).
pub fn bdsm_header(ranges: &Vec<(u32, u32)>) -> (h: Vec<u8>)
    ensures
        h@ == bdsm_head(ranges@),
{
    let mut h: Vec<u8> = Vec::new();
    h.push(0x42u8);
    h.push(0x44u8);
    h.push(0x53u8);
    h.push(0x4Du8);
    push_le32(&mut h, 1);
    push_le32(&mut h, ranges.len() as u32);
    let ghost head = h@;
    let mut i: usize = 0;
    while i < ranges.len()
        invariant
            i <= ranges@.len(),
            h@ == head + range_table(ranges@.take(i as int)),
        decreases ranges@.len() - i,
    {
        proof {
            assert(ranges@.take(i + 1).drop_last() =~= ranges@.take(i as int));
            assert(ranges@.take(i + 1).last() == ranges@[i as int]);
        }
        push_le32(&mut h, ranges[i].0);
        push_le32(&mut h, ranges[i].1);
        i = i + 1;
        assert(h@ =~= head + range_table(ranges@.take(i as int)));
    }
    assert(ranges@.take(ranges@.len() as int) =~= ranges@);
    assert(h@ =~= bdsm_head(ranges@));
    h
}

/// The sectors a range read chunk by chunk covers, from `lba` to `end`.
pub open spec fn chunked_total(lba: u32, end: u32, chunk: u16) -> int
    decreases end - lba,
{
    if lba >= end || chunk == 0 {
        0
    } else {
        let n = chunk_len(lba, end, chunk);
        n + chunked_total((lba + n) as u32, end, chunk)
    }
}

/// Reading a range in chunks of `next_chunk` sectors ends, and covers the
/// range exactly.
pub proof fn law_chunks_cover_the_range(lba: u32, end: u32, chunk: u16)
    requires
        lba <= end,
        chunk > 0,
    ensures
        chunked_total(lba, end, chunk) == end - lba,
    decreases end - lba,
{
    if lba < end {
        let n = chunk_len(lba, end, chunk);
        law_chunks_cover_the_range((lba + n) as u32, end, chunk);
    }
}

/// A hexadecimal digit, lower or upper case.
pub open spec fn hex_digit(d: int, upper: bool) -> char {
    if d < 10 {
        (48 + d) as char
    } else if upper {
        (55 + d) as char
    } else {
        (87 + d) as char
    }
}

/// The two hexadecimal digits of `v`.
pub open spec fn hex2(v: u8, upper: bool) -> Seq<char> {
    seq![hex_digit(v as int / 16, upper), hex_digit(v as int % 16, upper)]
}

fn push_hex2(s: &mut String, v: u8, upper: bool)
    ensures
        final(s)@ == old(s)@ + hex2(v, upper),
{
    let hi = v / 16;
    let lo = v % 16;
    let a: u8 = if upper { 55 } else { 87 };
    let c1 = if hi < 10 { (48 + hi) as char } else { (a + hi) as char };
    let c2 = if lo < 10 { (48 + lo) as char } else { (a + lo) as char };
    push_char(s, c1);
    push_char(s, c2);
    assert(final(s)@ =~= old(s)@ + hex2(v, upper));
}

/// One SCSI structure a capture saves: the file it goes to, the label it is
/// logged under, the command that reads it, the buffer size, and whether
/// the fixture is incomplete without it.
pub struct StructureRequest {
    pub file: String,
    pub label: String,
    pub cdb: Vec<u8>,
    pub size: usize,
    pub required: bool,
}

/// A request in mathematical terms.
pub open spec fn request_model(r: StructureRequest) -> (Seq<char>, Seq<char>, Seq<u8>, nat, bool) {
    (r.file@, r.label@, r.cdb@, r.size as nat, r.required)
}

/// The READ DISC STRUCTURE command for format `fmt` (Blu-ray media).
pub open spec fn structure_cdb(fmt: u8) -> Seq<u8> {
    seq![0xADu8, 0x01, 0, 0, 0, 0, 0, fmt, 0x10, 0x04, 0, 0]
}

/// The request for disc structure `fmt`, named `name`: saved to
/// `ds_<fmt>.bin` (lower-case hexadecimal) from a 4100-byte buffer.
pub open spec fn structure_model(fmt: u8, name: Seq<char>, required: bool) -> (Seq<char>, Seq<char>, Seq<u8>, nat, bool) {
    (
        "ds_"@ + hex2(fmt, false) + ".bin"@,
        "DISC_STRUCTURE 0x"@ + hex2(fmt, true) + " ("@ + name + ")"@,
        structure_cdb(fmt),
        4100,
        required,
    )
}

/// The request for disc structure `fmt` (see `structure_model`).
pub fn disc_structure_request(fmt: u8, name: &str, required: bool) -> (r: StructureRequest)
    ensures
        request_model(r) == structure_model(fmt, name@, required),
{
    let mut file = String::new();
    push_str(&mut file, "ds_");
    push_hex2(&mut file, fmt, false);
    push_str(&mut file, ".bin");
    let mut label = String::new();
    push_str(&mut label, "DISC_STRUCTURE 0x");
    push_hex2(&mut label, fmt, true);
    push_str(&mut label, " (");
    push_str(&mut label, name);
    push_str(&mut label, ")");
    let cdb: Vec<u8> = vec![0xADu8, 0x01, 0, 0, 0, 0, 0, fmt, 0x10, 0x04, 0, 0];
    assert(cdb@ =~= structure_cdb(fmt));
    StructureRequest { file, label, cdb, size: 4100, required }
}

/// A request for a fixed command.
fn fixed_request(file: &str, label: &str, cdb: Vec<u8>, size: usize, required: bool) -> (r:
    StructureRequest)
    ensures
        request_model(r) == (file@, label@, cdb@, size as nat, required),
{
    StructureRequest {
        file: String::from_str(file),
        label: String::from_str(label),
        cdb,
        size,
        required,
    }
}

/// The structures a capture saves, in order: capacity, TOC and disc
/// information (required), then the disc structures PFI and DI (required)
/// and BCA, DCB and read-only PFI (optional).
pub open spec fn planned_requests() -> Seq<(Seq<char>, Seq<char>, Seq<u8>, nat, bool)> {
    seq![
        ("capacity.bin"@, "READ_CAPACITY"@, seq![0x25u8, 0, 0, 0, 0, 0, 0, 0, 0, 0], 8nat, true),
        ("toc.bin"@, "READ_TOC"@, seq![0x43u8, 0, 0, 0, 0, 0, 0, 0x10, 0, 0], 4096nat, true),
        ("disc_info.bin"@, "READ_DISC_INFO"@, seq![0x51u8, 0, 0, 0, 0, 0, 0, 0x01, 0, 0], 256nat, true),
        structure_model(0x00, "PFI"@, true),
        structure_model(0x01, "DI"@, true),
        structure_model(0x03, "BCA"@, false),
        structure_model(0x0E, "DCB"@, false),
        structure_model(0x0F, "PFI_RO"@, false),
    ]
}

/// The structures a capture saves (see `planned_requests`).
pub fn capture_requests() -> (r: Vec<StructureRequest>)
    ensures
        Seq::new(r@.len(), |i: int| request_model(r@[i])) == planned_requests(),
{
    let mut r: Vec<StructureRequest> = Vec::new();
    r.push(fixed_request("capacity.bin", "READ_CAPACITY", vec![0x25u8, 0, 0, 0, 0, 0, 0, 0, 0, 0], 8, true));
    r.push(fixed_request("toc.bin", "READ_TOC", vec![0x43u8, 0, 0, 0, 0, 0, 0, 0x10, 0, 0], 4096, true));
    r.push(fixed_request("disc_info.bin", "READ_DISC_INFO", vec![0x51u8, 0, 0, 0, 0, 0, 0, 0x01, 0, 0], 256, true));
    r.push(disc_structure_request(0x00, "PFI", true));
    r.push(disc_structure_request(0x01, "DI", true));
    r.push(disc_structure_request(0x03, "BCA", false));
    r.push(disc_structure_request(0x0E, "DCB", false));
    r.push(disc_structure_request(0x0F, "PFI_RO", false));
    proof {
        assert(Seq::new(r@.len(), |i: int| request_model(r@[i])) =~= planned_requests());
    }
    r
}

/// How saving one SCSI structure ended.
#[derive(Debug, PartialEq, Eq, Structural, Clone, Copy)]
pub enum SaveOutcome {
    /// Read and written.
    Saved,
    /// Read, but the file could not be written.
    WriteFailed,
    /// The drive reports the structure absent (ILLEGAL REQUEST).
    Absent,
    /// The transport failed.
    TransportFailure,
    /// Any other failure of the command.
    Failed,
}

/// Whether a save lost a structure the fixture needs: a required structure
/// that was not saved for any reason but absence.
pub open spec fn loses_structure(outcome: SaveOutcome, required: bool) -> bool {
    required && !(outcome is Saved || outcome is Absent)
}

/// Whether a save lost a structure the fixture needs (see `loses_structure`).
pub fn lost_required(outcome: SaveOutcome, required: bool) -> (b: bool)
    ensures
        b == loses_structure(outcome, required),
{
    required && !(outcome == SaveOutcome::Saved || outcome == SaveOutcome::Absent)
}

/// The bytes kept of a structure: what the drive reports it transferred,
/// never more than the buffer holds.
pub fn saved_len(transferred: usize, size: usize) -> (n: usize)
    ensures
        n as int == min_len(transferred as int, size as int),
{
    if transferred < size {
        transferred
    } else {
        size
    }
}

} // verus!
