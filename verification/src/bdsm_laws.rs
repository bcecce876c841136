//! A BDSM file written as a capture writes it reads back, on load, as the
//! ranges that were written, each with the offset its sectors were written
//! at.

use crate::capture::{bdsm_head, le32, range_table};
use crate::profile::{
    bdsm_complete, bdsm_count, bdsm_file_ranges, bdsm_num_ranges, bdsm_offset,
    bdsm_sectors_before, bdsm_start, is_bdsm, le_u32_at, parsed_sector_file,
    range_end, ranges_in_order, sort_by_start, SectorRange,
};
use vstd::prelude::*;

verus! {

/// The sectors of the first `k` ranges.
pub open spec fn counts_before(rs: Seq<(u32, u32)>, k: int) -> int
    decreases k,
{
    if k <= 0 {
        0
    } else {
        counts_before(rs, k - 1) + rs[k - 1].1
    }
}

/// The map the written ranges make: each range with the offset of its
/// data, which follows the head and the data of the ranges before it.
pub open spec fn written_map(rs: Seq<(u32, u32)>) -> Seq<SectorRange> {
    Seq::new(
        rs.len(),
        |i: int| (rs[i].0, rs[i].1, (12 + 8 * rs.len() + 2048 * counts_before(rs, i)) as usize),
    )
}

/// Each range ends at or before the start of the next.
pub open spec fn ranges_ascend(rs: Seq<(u32, u32)>) -> bool {
    forall|k: int| 0 < k < rs.len() ==> rs[k - 1].0 + rs[k - 1].1 <= (#[trigger] rs[k]).0
}

proof fn lemma_le32_value(x: u32)
    ensures
        le32(x).len() == 4,
        le32(x)[0] as int + le32(x)[1] as int * 256 + le32(x)[2] as int * 65536 + le32(x)[3] as int
            * 16777216 == x,
{
    assert((x % 256) + ((x / 256) % 256) * 256 + ((x / 65536) % 256) * 65536 + (x / 16777216)
        * 16777216 == x) by (bit_vector);
    assert(le32(x)[0] as int == x % 256);
    assert(le32(x)[1] as int == (x / 256) % 256);
    assert(le32(x)[2] as int == (x / 65536) % 256);
    assert(le32(x)[3] as int == x / 16777216);
}

proof fn lemma_le_u32_of(f: Seq<u8>, off: int, x: u32)
    requires
        0 <= off,
        off + 4 <= f.len(),
        f.subrange(off, off + 4) == le32(x),
    ensures
        le_u32_at(f, off) == x,
{
    lemma_le32_value(x);
    assert(f[off] == le32(x)[0]);
    assert(f[off + 1] == le32(x)[1]);
    assert(f[off + 2] == le32(x)[2]);
    assert(f[off + 3] == le32(x)[3]);
}

/// The table holds each range's first LBA and count, eight bytes apart.
proof fn lemma_range_table(rs: Seq<(u32, u32)>)
    ensures
        range_table(rs).len() == 8 * rs.len(),
        forall|i: int|
            0 <= i < rs.len() ==> range_table(rs).subrange(8 * i, 8 * i + 4) == le32(
                (#[trigger] rs[i]).0,
            ) && range_table(rs).subrange(8 * i + 4, 8 * i + 8) == le32(rs[i].1),
    decreases rs.len(),
{
    if rs.len() > 0 {
        let t = rs.drop_last();
        lemma_range_table(t);
        let n = rs.len() - 1;
        let tb = range_table(t);
        let x = rs.last();
        assert(range_table(rs) == tb + le32(x.0) + le32(x.1));
        assert forall|i: int| 0 <= i < rs.len() implies range_table(rs).subrange(8 * i, 8 * i + 4)
            == le32((#[trigger] rs[i]).0) && range_table(rs).subrange(8 * i + 4, 8 * i + 8)
            == le32(rs[i].1) by {
            if i < n {
                assert(rs[i] == t[i]);
                assert(range_table(rs).subrange(8 * i, 8 * i + 4) =~= tb.subrange(8 * i, 8 * i + 4));
                assert(range_table(rs).subrange(8 * i + 4, 8 * i + 8) =~= tb.subrange(
                    8 * i + 4,
                    8 * i + 8,
                ));
            } else {
                assert(range_table(rs).subrange(8 * i, 8 * i + 4) =~= le32(x.0));
                assert(range_table(rs).subrange(8 * i + 4, 8 * i + 8) =~= le32(x.1));
            }
        }
    }
}

proof fn lemma_counts_nonneg(rs: Seq<(u32, u32)>, k: int)
    ensures
        counts_before(rs, k) >= 0,
    decreases k,
{
    if k > 0 {
        lemma_counts_nonneg(rs, k - 1);
    }
}

proof fn lemma_counts_monotone(rs: Seq<(u32, u32)>, i: int, j: int)
    requires
        i <= j,
    ensures
        counts_before(rs, i) <= counts_before(rs, j),
    decreases j - i,
{
    if i < j {
        lemma_counts_monotone(rs, i, j - 1);
        if j > 0 {
        }
    }
}

/// A sequence already in order of first LBA is its own stable sort.
proof fn lemma_sorted_is_own_sort(m: Seq<SectorRange>)
    requires
        forall|k: int| 0 < k < m.len() ==> m[k - 1].0 <= (#[trigger] m[k]).0,
    ensures
        sort_by_start(m) == m,
    decreases m.len(),
{
    if m.len() > 0 {
        let t = m.drop_last();
        assert forall|k: int| 0 < k < t.len() implies t[k - 1].0 <= (#[trigger] t[k]).0 by {
            assert(t[k] == m[k] && t[k - 1] == m[k - 1]);
        }
        lemma_sorted_is_own_sort(t);
        if t.len() > 0 {
            assert(t.last() == m[m.len() - 2]);
            assert(m[m.len() - 1] == m.last());
        }
        assert(t.push(m.last()) =~= m);
    }
}

/// The head of the written file: its magic, its number of ranges and its
/// table, read back.
proof fn lemma_written_head(rs: Seq<(u32, u32)>, payload: Seq<u8>)
    requires
        rs.len() <= u32::MAX,
    ensures
        ({
            let f = bdsm_head(rs) + payload;
            &&& f.len() == 12 + 8 * rs.len() + payload.len()
            &&& is_bdsm(f)
            &&& bdsm_num_ranges(f) == rs.len()
            &&& forall|i: int|
                0 <= i < rs.len() ==> bdsm_start(f, i) == (#[trigger] rs[i]).0 && bdsm_count(f, i)
                    == rs[i].1
        }),
{
    let n = rs.len() as int;
    let f = bdsm_head(rs) + payload;
    let magic = seq![0x42u8, 0x44u8, 0x53u8, 0x4Du8];
    let tb = range_table(rs);
    lemma_range_table(rs);
    lemma_le32_value(1);
    lemma_le32_value(n as u32);
    let h = magic + le32(1) + le32(n as u32) + tb;
    assert(bdsm_head(rs) == h);
    assert(h.len() == 12 + 8 * n);
    assert(f[0] == 0x42u8 && f[1] == 0x44u8 && f[2] == 0x53u8 && f[3] == 0x4Du8);
    assert(f.subrange(8, 12) =~= le32(n as u32));
    lemma_le_u32_of(f, 8, n as u32);
    assert forall|i: int| 0 <= i < n implies bdsm_start(f, i) == (#[trigger] rs[i]).0
        && bdsm_count(f, i) == rs[i].1 by {
        assert(f.subrange(12 + 8 * i, 12 + 8 * i + 4) =~= tb.subrange(8 * i, 8 * i + 4));
        assert(f.subrange(16 + 8 * i, 16 + 8 * i + 4) =~= tb.subrange(8 * i + 4, 8 * i + 8));
        lemma_le_u32_of(f, 12 + 8 * i, rs[i].0);
        lemma_le_u32_of(f, 16 + 8 * i, rs[i].1);
    }
}

/// Writing a BDSM head for ranges that ascend without overlap, followed by
/// exactly their sectors, gives a file that reads back as those ranges with
/// the offsets of their data.
pub proof fn law_bdsm_round_trip(rs: Seq<(u32, u32)>, payload: Seq<u8>)
    requires
        rs.len() <= u32::MAX,
        payload.len() == 2048 * counts_before(rs, rs.len() as int),
        ranges_ascend(rs),
        12 + 8 * rs.len() + payload.len() <= usize::MAX,
    ensures
        parsed_sector_file(bdsm_head(rs) + payload) == (bdsm_head(rs) + payload, written_map(rs)),
{
    let n = rs.len() as int;
    let f = bdsm_head(rs) + payload;
    lemma_written_head(rs, payload);
    assert forall|k: int| 0 <= k <= n implies #[trigger] bdsm_sectors_before(f, k) == counts_before(
        rs,
        k,
    ) by {
        lemma_sectors_before_eq(f, rs, k);
    }
    assert(bdsm_offset(f, n) == f.len());
    assert(bdsm_complete(f));
    lemma_file_ranges_eq(f, rs, n);
    let m = written_map(rs);
    assert(m.take(n) =~= m);
    assert forall|k: int| 0 < k < m.len() implies m[k - 1].0 <= (#[trigger] m[k]).0 by {
        assert(rs[k - 1].0 + rs[k - 1].1 <= rs[k].0);
    }
    lemma_sorted_is_own_sort(m);
    assert forall|k: int| 0 < k < m.len() implies range_end(#[trigger] m[k - 1]) <= m[k].0 by {
        assert(rs[k - 1].0 + rs[k - 1].1 <= rs[k].0);
    }
    assert(ranges_in_order(m));
}

proof fn lemma_sectors_before_eq(f: Seq<u8>, rs: Seq<(u32, u32)>, k: int)
    requires
        0 <= k <= rs.len(),
        forall|i: int| 0 <= i < rs.len() ==> bdsm_count(f, i) == (#[trigger] rs[i]).1,
    ensures
        bdsm_sectors_before(f, k) == counts_before(rs, k),
    decreases k,
{
    if k > 0 {
        lemma_sectors_before_eq(f, rs, k - 1);
        assert(bdsm_count(f, k - 1) == rs[k - 1].1);
    }
}

proof fn lemma_file_ranges_eq(f: Seq<u8>, rs: Seq<(u32, u32)>, k: int)
    requires
        0 <= k <= rs.len(),
        bdsm_num_ranges(f) == rs.len(),
        forall|i: int|
            0 <= i < rs.len() ==> bdsm_start(f, i) == (#[trigger] rs[i]).0 && bdsm_count(f, i)
                == rs[i].1,
        forall|j: int| 0 <= j <= rs.len() ==> #[trigger] bdsm_sectors_before(f, j) == counts_before(rs, j),
    ensures
        bdsm_file_ranges(f, k) == written_map(rs).take(k),
    decreases k,
{
    if k > 0 {
        lemma_file_ranges_eq(f, rs, k - 1);
        assert(bdsm_sectors_before(f, k - 1) == counts_before(rs, k - 1));
        assert(written_map(rs).take(k) =~= written_map(rs).take(k - 1).push(written_map(rs)[k - 1]));
        assert(bdsm_start(f, k - 1) == rs[k - 1].0);
    } else {
        assert(written_map(rs).take(0) =~= Seq::<SectorRange>::empty());
    }
}

} // verus!
