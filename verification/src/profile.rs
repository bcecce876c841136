//! Drive and disc profiles: the captured SCSI responses an emulated drive
//! serves, and the BDSM sparse sector-map format.

use std::collections::HashMap;
use vstd::prelude::*;

verus! {

broadcast use vstd::std_specs::hash::group_hash_axioms;

/// Logical block size of every optical medium emulated here.
pub const SECTOR_SIZE: usize = 2048;

/// A BDSM range: (first LBA, sector count, byte offset of its first sector).
pub type SectorRange = (u32, u32, usize);

/// Loaded profile with raw bytes ready to serve.
pub struct LoadedProfile {
    pub name: String,
    pub inquiry: Vec<u8>,
    pub current_profile: u16,
    pub features: Vec<(u16, Vec<u8>)>,
    pub rpc_state: Vec<u8>,
    pub read_bufs: Vec<(u8, Vec<u8>)>,
    pub mode_2a: Vec<u8>,
    pub disc: Option<DiscProfile>,
}

/// The captured responses of one disc.
pub struct DiscProfile {
    pub toc: Vec<u8>,
    pub capacity: Vec<u8>,
    pub disc_info: Vec<u8>,
    /// Format code -> READ DISC STRUCTURE response.
    pub disc_structures: HashMap<u8, Vec<u8>>,
    /// A single sector pattern served for every LBA.
    pub sector_data: Vec<u8>,
    /// Sector data, flat or sparse.
    pub sectors: Vec<u8>,
    /// Sparse map; empty for a flat dump.
    pub sector_map: Vec<SectorRange>,
}

// ---------------------------------------------------------------------------
// Lookup tables
// ---------------------------------------------------------------------------

/// The payload of the first feature with `code`, if any.
pub open spec fn first_feature(s: Seq<(u16, Vec<u8>)>, code: u16) -> Option<Seq<u8>>
    decreases s.len(),
{
    if s.len() == 0 {
        None
    } else if s[0].0 == code {
        Some(s[0].1@)
    } else {
        first_feature(s.drop_first(), code)
    }
}

/// The payload of the first READ BUFFER entry with `id`, if any.
pub open spec fn first_read_buf(s: Seq<(u8, Vec<u8>)>, id: u8) -> Option<Seq<u8>>
    decreases s.len(),
{
    if s.len() == 0 {
        None
    } else if s[0].0 == id {
        Some(s[0].1@)
    } else {
        first_read_buf(s.drop_first(), id)
    }
}

/// The view of an optional byte slice.
pub open spec fn opt_bytes(o: Option<&[u8]>) -> Option<Seq<u8>> {
    match o {
        Some(s) => Some(s@),
        None => None,
    }
}

// ---------------------------------------------------------------------------
// Sparse sector maps
// ---------------------------------------------------------------------------

/// One past the last LBA of a range.
pub open spec fn range_end(r: SectorRange) -> int {
    r.0 as int + r.1 as int
}

/// Whether range `r` holds `lba`.
pub open spec fn range_holds(r: SectorRange, lba: int) -> bool {
    r.0 <= lba < range_end(r)
}

/// A sector map that can be binary-searched: every range ends at or before
/// the start of every later one, and no byte offset of a sector overflows.
pub open spec fn map_wf(map: Seq<SectorRange>) -> bool {
    &&& forall|i: int, j: int| 0 <= i < j < map.len() ==> range_end(map[i]) <= map[j].0
    &&& forall|i: int|
        0 <= i < map.len() ==> map[i].2 as int + map[i].1 as int * 2048
            <= usize::MAX
}

/// Whether some range of the map holds `lba`.
pub open spec fn map_holds(map: Seq<SectorRange>, lba: int) -> bool {
    exists|i: int| 0 <= i < map.len() && range_holds(map[i], lba)
}

/// The byte offset of `lba`'s sector in a sparse capture, if it was captured.
pub open spec fn sector_offset(map: Seq<SectorRange>, lba: int) -> Option<int> {
    if map_holds(map, lba) {
        let i = choose|i: int| 0 <= i < map.len() && range_holds(map[i], lba);
        Some(map[i].2 as int + (lba - map[i].0) * 2048)
    } else {
        None
    }
}

/// In a well-formed map at most one range holds an LBA.
pub proof fn lemma_holding_range_unique(map: Seq<SectorRange>, lba: int, i: int, j: int)
    requires
        map_wf(map),
        0 <= i < map.len(),
        0 <= j < map.len(),
        range_holds(map[i], lba),
        range_holds(map[j], lba),
    ensures
        i == j,
{
    if i < j {
        assert(range_end(map[i]) <= map[j].0);
    } else if j < i {
        assert(range_end(map[j]) <= map[i].0);
    }
}

/// The offset of a held LBA is the one its (unique) range gives.
pub proof fn lemma_sector_offset_of(map: Seq<SectorRange>, lba: int, i: int)
    requires
        map_wf(map),
        0 <= i < map.len(),
        range_holds(map[i], lba),
    ensures
        sector_offset(map, lba) == Some(map[i].2 as int + (lba - map[i].0) * 2048),
{
    assert(map_holds(map, lba));
    let k = choose|k: int| 0 <= k < map.len() && range_holds(map[k], lba);
    lemma_holding_range_unique(map, lba, i, k);
}

// ---------------------------------------------------------------------------
// The BDSM sector-map file format
//
//   "BDSM" | version: u32 LE | n: u32 LE | n x (start_lba: u32 LE, count: u32 LE)
//   | sector data, contiguous, in range order
//
// A file that is not a complete, consistent BDSM is a flat dump
// (LBA = byte offset / SECTOR_SIZE).
// ---------------------------------------------------------------------------

/// The little-endian `u32` at byte `off`.
pub open spec fn le_u32_at(d: Seq<u8>, off: int) -> int {
    d[off] as int + d[off + 1] as int * 256 + d[off + 2] as int * 65536 + d[off + 3] as int
        * 16777216
}

/// Whether the file starts with the BDSM magic and a full 12-byte header.
pub open spec fn is_bdsm(d: Seq<u8>) -> bool {
    &&& d.len() >= 12
    &&& d[0] == 0x42u8
    &&& d[1] == 0x44u8
    &&& d[2] == 0x53u8
    &&& d[3] == 0x4Du8
}

/// The declared number of ranges.
pub open spec fn bdsm_num_ranges(d: Seq<u8>) -> int {
    le_u32_at(d, 8)
}

/// First LBA of declared range `i`.
pub open spec fn bdsm_start(d: Seq<u8>, i: int) -> int {
    le_u32_at(d, 12 + 8 * i)
}

/// Sector count of declared range `i`.
pub open spec fn bdsm_count(d: Seq<u8>, i: int) -> int {
    le_u32_at(d, 16 + 8 * i)
}

/// Sectors declared by the first `k` ranges.
pub open spec fn bdsm_sectors_before(d: Seq<u8>, k: int) -> int
    decreases k,
{
    if k <= 0 {
        0
    } else {
        bdsm_sectors_before(d, k - 1) + bdsm_count(d, k - 1)
    }
}

/// Byte offset of the data of declared range `i`.
pub open spec fn bdsm_offset(d: Seq<u8>, i: int) -> int {
    12 + 8 * bdsm_num_ranges(d) + 2048 * bdsm_sectors_before(d, i)
}

/// A BDSM whose range table and declared sector data all lie inside the file.
pub open spec fn bdsm_complete(d: Seq<u8>) -> bool {
    &&& is_bdsm(d)
    &&& 12 + 8 * bdsm_num_ranges(d) <= d.len()
    &&& bdsm_offset(d, bdsm_num_ranges(d)) <= d.len()
}

/// The first `k` declared ranges, in file order, with their data offsets.
pub open spec fn bdsm_file_ranges(d: Seq<u8>, k: int) -> Seq<SectorRange>
    decreases k,
{
    if k <= 0 {
        Seq::empty()
    } else {
        bdsm_file_ranges(d, k - 1).push(
            (bdsm_start(d, k - 1) as u32, bdsm_count(d, k - 1) as u32, bdsm_offset(d, k - 1) as usize),
        )
    }
}

/// Stable insertion of `x` into `s`: after the last element whose start is
/// not greater than `x`'s.
pub open spec fn insert_by_start(s: Seq<SectorRange>, x: SectorRange) -> Seq<SectorRange>
    decreases s.len(),
{
    if s.len() == 0 {
        seq![x]
    } else if s.last().0 <= x.0 {
        s.push(x)
    } else {
        insert_by_start(s.drop_last(), x).push(s.last())
    }
}

/// Stable sort by first LBA.
pub open spec fn sort_by_start(s: Seq<SectorRange>) -> Seq<SectorRange>
    decreases s.len(),
{
    if s.len() == 0 {
        s
    } else {
        insert_by_start(sort_by_start(s.drop_last()), s.last())
    }
}

/// Each range starts at or after the end of the one before it.
pub open spec fn ranges_in_order(m: Seq<SectorRange>) -> bool {
    forall|k: int| 0 < k < m.len() ==> range_end(#[trigger] m[k - 1]) <= m[k].0
}

/// Every range's data ends at or before byte `len`.
pub open spec fn ranges_fit(m: Seq<SectorRange>, len: int) -> bool {
    forall|i: int|
        0 <= i < m.len() ==> (#[trigger] m[i]).2 as int + m[i].1 as int * 2048 <= len
}

/// What `parse_sector_file` returns: the bytes and the map. An incomplete or
/// non-BDSM file is a flat dump; a BDSM whose ranges overlap is discarded.
pub open spec fn parsed_sector_file(d: Seq<u8>) -> (Seq<u8>, Seq<SectorRange>) {
    if !bdsm_complete(d) {
        (d, Seq::empty())
    } else {
        let m = sort_by_start(bdsm_file_ranges(d, bdsm_num_ranges(d)));
        if ranges_in_order(m) {
            (d, m)
        } else {
            (Seq::empty(), Seq::empty())
        }
    }
}

proof fn lemma_le_u32_bound(d: Seq<u8>, off: int)
    requires
        0 <= off,
        off + 4 <= d.len(),
    ensures
        0 <= le_u32_at(d, off) <= u32::MAX,
{
}

proof fn lemma_sectors_before_nonneg(d: Seq<u8>, k: int)
    ensures
        0 <= bdsm_sectors_before(d, k),
    decreases k,
{
    if k > 0 {
        lemma_sectors_before_nonneg(d, k - 1);
    }
}

proof fn lemma_sectors_before_monotone(d: Seq<u8>, i: int, j: int)
    requires
        0 <= i <= j,
    ensures
        0 <= bdsm_sectors_before(d, i) <= bdsm_sectors_before(d, j),
    decreases j - i,
{
    lemma_sectors_before_nonneg(d, i);
    if i < j {
        lemma_sectors_before_monotone(d, i, j - 1);
    }
}

proof fn lemma_file_ranges_len(d: Seq<u8>, k: int)
    requires
        0 <= k,
    ensures
        bdsm_file_ranges(d, k).len() == k,
    decreases k,
{
    if k > 0 {
        lemma_file_ranges_len(d, k - 1);
    }
}

/// Every range's data starts at or after byte `lo` and ends at or before
/// byte `len`.
spec fn ranges_between(m: Seq<SectorRange>, lo: int, len: int) -> bool {
    forall|i: int|
        0 <= i < m.len() ==> lo <= (#[trigger] m[i]).2 && m[i].2 as int + m[i].1 as int * 2048
            <= len
}

proof fn lemma_file_ranges_fit(d: Seq<u8>, k: int)
    requires
        d.len() <= usize::MAX,
        0 <= k <= bdsm_num_ranges(d),
        bdsm_complete(d),
    ensures
        ranges_between(bdsm_file_ranges(d, k), 12 + 8 * bdsm_num_ranges(d), d.len() as int),
        bdsm_file_ranges(d, k).len() == k,
    decreases k,
{
    if k > 0 {
        lemma_file_ranges_fit(d, k - 1);
        lemma_sectors_before_monotone(d, k, bdsm_num_ranges(d));
        lemma_sectors_before_monotone(d, k - 1, bdsm_num_ranges(d));
        lemma_le_u32_bound(d, 12 + 8 * (k - 1));
        lemma_le_u32_bound(d, 16 + 8 * (k - 1));
        let m = bdsm_file_ranges(d, k);
        let t = (
            bdsm_start(d, k - 1) as u32,
            bdsm_count(d, k - 1) as u32,
            bdsm_offset(d, k - 1) as usize,
        );
        assert(m == bdsm_file_ranges(d, k - 1).push(t));
        let last = m[k - 1];
        assert(last == t);
        assert(bdsm_sectors_before(d, k - 1) <= bdsm_sectors_before(d, bdsm_num_ranges(d)));
        assert(0 <= bdsm_sectors_before(d, k - 1));
        assert(0 <= bdsm_offset(d, k - 1));
        assert(bdsm_offset(d, k - 1) <= bdsm_offset(d, bdsm_num_ranges(d)));
        assert(last.2 as int == bdsm_offset(d, k - 1));
        assert(last.1 as int == bdsm_count(d, k - 1));
        assert forall|i: int| 0 <= i < m.len() implies 12 + 8 * bdsm_num_ranges(d) <= (
        #[trigger] m[i]).2 && m[i].2 as int + m[i].1 as int * 2048 <= d.len() by {
            if i < k - 1 {
                assert(m[i] == bdsm_file_ranges(d, k - 1)[i]);
            }
        }
    }
}

proof fn lemma_insert_fits(s: Seq<SectorRange>, x: SectorRange, lo: int, len: int)
    requires
        ranges_between(s, lo, len),
        lo <= x.2,
        x.2 as int + x.1 as int * 2048 <= len,
    ensures
        ranges_between(insert_by_start(s, x), lo, len),
        insert_by_start(s, x).len() == s.len() + 1,
    decreases s.len(),
{
    if s.len() > 0 && s.last().0 > x.0 {
        let t = s.drop_last();
        assert(ranges_between(t, lo, len)) by {
            assert forall|i: int| 0 <= i < t.len() implies lo <= (#[trigger] t[i]).2 && t[i].2 as int
                + t[i].1 as int * 2048 <= len by {
                assert(t[i] == s[i]);
            }
        }
        lemma_insert_fits(t, x, lo, len);
        let r = insert_by_start(t, x).push(s.last());
        assert forall|i: int| 0 <= i < r.len() implies lo <= (#[trigger] r[i]).2 && r[i].2 as int
            + r[i].1 as int * 2048 <= len by {
            if i < r.len() - 1 {
                assert(r[i] == insert_by_start(t, x)[i]);
            } else {
                assert(r[i] == s[s.len() - 1]);
            }
        }
    } else if s.len() > 0 {
        let r = s.push(x);
        assert forall|i: int| 0 <= i < r.len() implies lo <= (#[trigger] r[i]).2 && r[i].2 as int
            + r[i].1 as int * 2048 <= len by {
            if i < s.len() {
                assert(r[i] == s[i]);
            }
        }
    }
}

proof fn lemma_sort_fits(s: Seq<SectorRange>, lo: int, len: int)
    requires
        ranges_between(s, lo, len),
    ensures
        ranges_between(sort_by_start(s), lo, len),
        sort_by_start(s).len() == s.len(),
    decreases s.len(),
{
    if s.len() > 0 {
        let t = s.drop_last();
        assert(ranges_between(t, lo, len)) by {
            assert forall|i: int| 0 <= i < t.len() implies lo <= (#[trigger] t[i]).2 && t[i].2 as int
                + t[i].1 as int * 2048 <= len by {
                assert(t[i] == s[i]);
            }
        }
        lemma_sort_fits(t, lo, len);
        assert(s[s.len() - 1] == s.last());
        lemma_insert_fits(sort_by_start(t), s.last(), lo, len);
    }
}

/// Inserting at the position a backward scan stops at is the stable insertion.
proof fn lemma_insert_at_scan(s: Seq<SectorRange>, x: SectorRange, p: int)
    requires
        0 <= p <= s.len(),
        p == 0 || s[p - 1].0 <= x.0,
        forall|k: int| p <= k < s.len() ==> (#[trigger] s[k]).0 > x.0,
    ensures
        insert_by_start(s, x) == s.insert(p, x),
    decreases s.len(),
{
    if s.len() == 0 {
        assert(s.insert(p, x) =~= seq![x]);
    } else if p == s.len() {
        assert(s.insert(p, x) =~= s.push(x));
    } else {
        let t = s.drop_last();
        assert(s[s.len() - 1].0 > x.0);
        assert forall|k: int| p <= k < t.len() implies (#[trigger] t[k]).0 > x.0 by {
            assert(t[k] == s[k]);
        }
        lemma_insert_at_scan(t, x, p);
        assert(t.insert(p, x).push(s.last()) =~= s.insert(p, x));
    }
}

/// A map whose neighbours are in order is well-ordered throughout.
proof fn lemma_in_order_all_pairs(m: Seq<SectorRange>, i: int, j: int)
    requires
        ranges_in_order(m),
        0 <= i < j < m.len(),
    ensures
        range_end(m[i]) <= m[j].0,
    decreases j - i,
{
    assert(range_end(m[j - 1]) <= m[j].0);
    if i + 1 < j {
        lemma_in_order_all_pairs(m, i, j - 1);
    }
}

proof fn lemma_in_order_wf(m: Seq<SectorRange>)
    requires
        ranges_in_order(m),
        ranges_fit(m, usize::MAX as int),
    ensures
        map_wf(m),
{
    assert forall|i: int, j: int| 0 <= i < j < m.len() implies range_end(m[i]) <= m[j].0 by {
        lemma_in_order_all_pairs(m, i, j);
    }
    assert forall|i: int| 0 <= i < m.len() implies m[i].2 as int + m[i].1 as int
        * 2048 <= usize::MAX by {
        assert(m[i] == m[i]);
    }
}

/// Reads the little-endian `u32` at `off`.
fn read_le_u32(d: &Vec<u8>, off: usize) -> (v: u32)
    requires
        off + 4 <= d.len(),
    ensures
        v as int == le_u32_at(d@, off as int),
{
    d[off] as u32 + d[off + 1] as u32 * 256 + d[off + 2] as u32 * 65536 + d[off + 3] as u32
        * 16777216
}

/// Stable insertion into a vector, by first LBA.
fn insert_range_sorted(v: &mut Vec<SectorRange>, x: SectorRange)
    ensures
        final(v)@ == insert_by_start(old(v)@, x),
{
    let mut p = v.len();
    while p > 0 && v[p - 1].0 > x.0
        invariant
            p <= v@.len(),
            forall|k: int| p <= k < v@.len() ==> (#[trigger] v@[k]).0 > x.0,
        decreases p,
    {
        p = p - 1;
    }
    proof {
        lemma_insert_at_scan(v@, x, p as int);
    }
    v.insert(p, x);
}

/// Stable sort by first LBA.
fn sort_ranges(v: Vec<SectorRange>) -> (r: Vec<SectorRange>)
    ensures
        r@ == sort_by_start(v@),
{
    let mut out: Vec<SectorRange> = Vec::new();
    let mut i: usize = 0;
    while i < v.len()
        invariant
            i <= v@.len(),
            out@ == sort_by_start(v@.take(i as int)),
        decreases v@.len() - i,
    {
        proof {
            assert(v@.take(i + 1).drop_last() =~= v@.take(i as int));
            assert(v@.take(i + 1).last() == v@[i as int]);
        }
        insert_range_sorted(&mut out, v[i]);
        i = i + 1;
    }
    proof {
        assert(v@.take(v@.len() as int) =~= v@);
    }
    out
}

/// Whether each range starts at or after the end of the previous one.
fn check_in_order(m: &Vec<SectorRange>) -> (b: bool)
    ensures
        b == ranges_in_order(m@),
{
    let mut k: usize = 1;
    while k < m.len()
        invariant
            1 <= k,
            forall|j: int| 0 < j < k && j < m@.len() ==> range_end(#[trigger] m@[j - 1]) <= m@[j].0,
        decreases m@.len() - k,
    {
        let prev = m[k - 1];
        if (m[k].0 as u64) < prev.0 as u64 + prev.1 as u64 {
            return false;
        }
        k = k + 1;
    }
    true
}

/// Parse a `sectors.bin` image. A complete BDSM file yields its ranges,
/// sorted by first LBA, each with the byte offset of its data; a BDSM whose
/// ranges overlap is discarded entirely; anything else (no magic, a
/// truncated table or truncated sector data) is a flat dump with an empty
/// map.
pub fn parse_sector_file(data: Vec<u8>) -> (r: (Vec<u8>, Vec<SectorRange>))
    ensures
        (r.0@, r.1@) == parsed_sector_file(data@),
        map_wf(r.1@),
        ranges_fit(r.1@, r.0@.len() as int),
{
    let ghost d = data@;
    if data.len() >= 12 && data[0] == 0x42u8 && data[1] == 0x44u8 && data[2] == 0x53u8
        && data[3] == 0x4Du8 {
        let num_ranges = read_le_u32(&data, 8) as usize;
        let max_ranges = (data.len() - 12) / 8;
        if num_ranges > max_ranges {
            return (data, Vec::new());
        }
        let header_size = 12 + num_ranges * 8;
        let mut map: Vec<SectorRange> = Vec::new();
        let mut data_offset = header_size;
        let mut i: usize = 0;
        while i < num_ranges
            invariant
                d == data@,
                is_bdsm(d),
                num_ranges == bdsm_num_ranges(d),
                header_size == 12 + 8 * num_ranges,
                header_size <= d.len(),
                i <= num_ranges,
                data_offset == bdsm_offset(d, i as int),
                data_offset <= d.len(),
                map@ == bdsm_file_ranges(d, i as int),
            decreases num_ranges - i,
        {
            let off = 12 + i * 8;
            let start = read_le_u32(&data, off);
            let count = read_le_u32(&data, off + 4);
            let span = match (count as usize).checked_mul(SECTOR_SIZE) {
                Some(s) => s,
                None => {
                    proof {
                        lemma_sectors_before_monotone(d, i + 1, num_ranges as int);
                        lemma_sectors_before_nonneg(d, i as int);
                        assert(bdsm_sectors_before(d, i + 1) == bdsm_sectors_before(d, i as int)
                            + bdsm_count(d, i as int));
                        assert(count as int * 2048 > usize::MAX);
                        assert(bdsm_count(d, i as int) == count);
                        assert(data.len() <= usize::MAX);
                        assert(bdsm_sectors_before(d, i as int) >= 0);
                        assert(bdsm_offset(d, i + 1) > d.len());
                        assert(bdsm_offset(d, bdsm_num_ranges(d)) > d.len());
                    }
                    return (data, Vec::new());
                },
            };
            let next_offset = match data_offset.checked_add(span) {
                Some(o) if o <= data.len() => o,
                _ => {
                    proof {
                        lemma_sectors_before_monotone(d, i + 1, num_ranges as int);
                        lemma_sectors_before_nonneg(d, i as int);
                        assert(bdsm_sectors_before(d, i + 1) == bdsm_sectors_before(d, i as int)
                            + bdsm_count(d, i as int));
                        assert(bdsm_offset(d, i + 1) == data_offset + span);
                        assert(data_offset + span > d.len());
                        assert(bdsm_offset(d, bdsm_num_ranges(d)) > d.len());
                    }
                    return (data, Vec::new());
                },
            };
            map.push((start, count, data_offset));
            data_offset = next_offset;
            i = i + 1;
        }
        proof {
            lemma_file_ranges_fit(d, num_ranges as int);
            lemma_sort_fits(
                bdsm_file_ranges(d, num_ranges as int),
                header_size as int,
                d.len() as int,
            );
        }
        let sorted = sort_ranges(map);
        if !check_in_order(&sorted) {
            return (Vec::new(), Vec::new());
        }
        proof {
            assert(ranges_fit(sorted@, d.len() as int));
            lemma_in_order_wf(sorted@);
        }
        (data, sorted)
    } else {
        (data, Vec::new())
    }
}

/// What a sector file parses to. A file without the BDSM magic and a full
/// header is kept as a flat dump with an empty map. A non-empty map comes
/// with the file unchanged, holds exactly as many ranges as the header
/// declares, ascends by first LBA, and every range's data starts after the
/// range table and ends inside the file.
pub proof fn law_sector_file_shape(d: Seq<u8>)
    requires
        d.len() <= usize::MAX,
    ensures
        !is_bdsm(d) ==> parsed_sector_file(d).0 == d && parsed_sector_file(d).1.len() == 0,
        parsed_sector_file(d).1.len() > 0 ==> parsed_sector_file(d).0 == d,
        parsed_sector_file(d).1.len() > 0 ==> parsed_sector_file(d).1.len() == bdsm_num_ranges(d),
        forall|i: int, j: int|
            0 <= i < j < parsed_sector_file(d).1.len() ==> (#[trigger] parsed_sector_file(d).1[i]).0
                <= (#[trigger] parsed_sector_file(d).1[j]).0,
        forall|i: int|
            0 <= i < parsed_sector_file(d).1.len() ==> 12 + 8 * parsed_sector_file(d).1.len() <= (
            #[trigger] parsed_sector_file(d).1[i]).2 && parsed_sector_file(d).1[i].2 as int
                + parsed_sector_file(d).1[i].1 as int * 2048 <= d.len(),
{
    let m = parsed_sector_file(d).1;
    if m.len() > 0 {
        let n = bdsm_num_ranges(d);
        lemma_file_ranges_fit(d, n);
        lemma_sort_fits(bdsm_file_ranges(d, n), 12 + 8 * n, d.len() as int);
        assert(m == sort_by_start(bdsm_file_ranges(d, n)));
        assert forall|i: int, j: int| 0 <= i < j < m.len() implies (#[trigger] m[i]).0 <= (
        #[trigger] m[j]).0 by {
            lemma_in_order_all_pairs(m, i, j);
        }
        assert forall|i: int| 0 <= i < m.len() implies 12 + 8 * m.len() <= (#[trigger] m[i]).2
            && m[i].2 as int + m[i].1 as int * 2048 <= d.len() by {}
    }
}

impl LoadedProfile {
    /// The payload of feature `code`, the first entry with that code.
    pub fn find_feature(&self, code: u16) -> (r: Option<&[u8]>)
        ensures
            opt_bytes(r) == first_feature(self.features@, code),
    {
        let mut i: usize = 0;
        assert(self.features@.skip(0) =~= self.features@);
        while i < self.features.len()
            invariant
                i <= self.features@.len(),
                first_feature(self.features@, code) == first_feature(
                    self.features@.skip(i as int),
                    code,
                ),
            decreases self.features@.len() - i,
        {
            assert(self.features@.skip(i as int).drop_first() =~= self.features@.skip(i + 1));
            if self.features[i].0 == code {
                return Some(self.features[i].1.as_slice());
            }
            i = i + 1;
        }
        None
    }

    /// The payload of READ BUFFER id `buf_id`, the first entry with that id.
    pub fn find_read_buf(&self, buf_id: u8) -> (r: Option<&[u8]>)
        ensures
            opt_bytes(r) == first_read_buf(self.read_bufs@, buf_id),
    {
        let mut i: usize = 0;
        assert(self.read_bufs@.skip(0) =~= self.read_bufs@);
        while i < self.read_bufs.len()
            invariant
                i <= self.read_bufs@.len(),
                first_read_buf(self.read_bufs@, buf_id) == first_read_buf(
                    self.read_bufs@.skip(i as int),
                    buf_id,
                ),
            decreases self.read_bufs@.len() - i,
        {
            assert(self.read_bufs@.skip(i as int).drop_first() =~= self.read_bufs@.skip(i + 1));
            if self.read_bufs[i].0 == buf_id {
                return Some(self.read_bufs[i].1.as_slice());
            }
            i = i + 1;
        }
        None
    }

    /// Whether a disc is loaded.
    pub fn has_disc(&self) -> (b: bool)
        ensures
            b == self.disc is Some,
    {
        self.disc.is_some()
    }

    /// Every loaded sector map can be binary-searched.
    pub open spec fn wf(&self) -> bool {
        self.disc matches Some(d) ==> map_wf(d.sector_map@)
    }
}

/// Whether a sector map can be binary-searched (see `map_wf`).
pub fn sector_map_ok(map: &Vec<SectorRange>) -> (b: bool)
    ensures
        b == map_wf(map@),
{
    if !check_in_order(map) {
        proof {
            let k = choose|k: int| 0 < k < map@.len() && !(range_end(#[trigger] map@[k - 1]) <= map@[k].0);
            assert(!(range_end(map@[k - 1]) <= map@[k].0));
        }
        return false;
    }
    let mut i: usize = 0;
    while i < map.len()
        invariant
            i <= map@.len(),
            forall|j: int| 0 <= j < i ==> (#[trigger] map@[j]).2 as int + map@[j].1 as int * 2048 <= usize::MAX,
        decreases map@.len() - i,
    {
        let (_, count, off) = map[i];
        let span = (count as u128) * 2048;
        if (off as u128) + span > usize::MAX as u128 {
            return false;
        }
        i = i + 1;
    }
    proof {
        lemma_in_order_wf(map@);
    }
    true
}

impl LoadedProfile {
    /// Whether the profile is well formed (see `wf`).
    pub fn is_wf(&self) -> (b: bool)
        ensures
            b == self.wf(),
    {
        match &self.disc {
            Some(d) => sector_map_ok(&d.sector_map),
            None => true,
        }
    }
}

} // verus!
