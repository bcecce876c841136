//! Assembling a `LoadedProfile` from its parsed description and the blobs
//! read for it: a profile directory (`drive.toml` plus `.bin` files) or a
//! JSON profile whose blobs are hexadecimal text.

use crate::disc_dir::{is_plain_disc_name, plain_name};
use crate::drive_toml::{keyed, DriveToml};
use crate::text::{string_of, trim_span, ws_trim, Strip};
use crate::profile::{first_feature};
use crate::profile::{map_wf, parse_sector_file, parsed_sector_file, DiscProfile, LoadedProfile};
use std::collections::HashMap;
use crate::profile_text::{buffer_key, hex_blob, parse_buffer_key, parse_hex, parse_u16_opt, u16_text};
use vstd::prelude::*;

verus! {

broadcast use vstd::std_specs::hash::group_hash_axioms;

/// Keyed blobs by their bytes.
pub open spec fn blobs_view<K>(s: Seq<(K, Vec<u8>)>) -> Seq<(K, Seq<u8>)> {
    Seq::new(s.len(), |i: int| (s[i].0, s[i].1@))
}

/// The entries whose blob is not empty, in order.
pub open spec fn non_empty<K>(s: Seq<(K, Seq<u8>)>) -> Seq<(K, Seq<u8>)>
    decreases s.len(),
{
    if s.len() == 0 {
        s
    } else {
        let r = non_empty(s.drop_last());
        if s.last().1.len() > 0 {
            r.push(s.last())
        } else {
            r
        }
    }
}

/// Stable insertion of `x` after the last entry whose code is not greater.
pub open spec fn insert_by_code(s: Seq<(u16, Seq<u8>)>, x: (u16, Seq<u8>)) -> Seq<(u16, Seq<u8>)>
    decreases s.len(),
{
    if s.len() == 0 {
        seq![x]
    } else if s.last().0 <= x.0 {
        s.push(x)
    } else {
        insert_by_code(s.drop_last(), x).push(s.last())
    }
}

/// Stable sort by code.
pub open spec fn sort_by_code(s: Seq<(u16, Seq<u8>)>) -> Seq<(u16, Seq<u8>)>
    decreases s.len(),
{
    if s.len() == 0 {
        s
    } else {
        insert_by_code(sort_by_code(s.drop_last()), s.last())
    }
}

/// Codes ascend (ties allowed).
pub open spec fn codes_sorted(s: Seq<(u16, Seq<u8>)>) -> bool {
    forall|i: int, j: int| 0 <= i < j < s.len() ==> (#[trigger] s[i]).0 <= (#[trigger] s[j]).0
}

/// The feature table of blobs given in declaration order: the empty ones
/// dropped, the rest stably sorted by feature code.
pub open spec fn feature_table_of(blobs: Seq<(u16, Seq<u8>)>) -> Seq<(u16, Seq<u8>)> {
    sort_by_code(non_empty(blobs))
}

/// Whether some entry of `s` has id `id`.
pub open spec fn has_id(s: Seq<(u8, Seq<u8>)>, id: u8) -> bool {
    exists|i: int| 0 <= i < s.len() && (#[trigger] s[i]).0 == id
}

/// `acc` extended by the blobs found by scanning the directory, in scan
/// order: each one whose id is not already present and that is not empty.
pub open spec fn add_scanned(acc: Seq<(u8, Seq<u8>)>, scanned: Seq<(u8, Seq<u8>)>) -> Seq<
    (u8, Seq<u8>),
>
    decreases scanned.len(),
{
    if scanned.len() == 0 {
        acc
    } else {
        let r = add_scanned(acc, scanned.drop_last());
        let x = scanned.last();
        if !has_id(r, x.0) && x.1.len() > 0 {
            r.push(x)
        } else {
            r
        }
    }
}

/// The read-buffer table: the non-empty blobs `drive.toml` lists, in order,
/// then the scanned `rb_XX.bin` blobs that add a new id.
pub open spec fn read_buffer_table_of(listed: Seq<(u8, Seq<u8>)>, scanned: Seq<(u8, Seq<u8>)>) -> Seq<
    (u8, Seq<u8>),
> {
    add_scanned(non_empty(listed), scanned)
}

proof fn lemma_view_insert<K>(s: Seq<(K, Vec<u8>)>, p: int, x: (K, Vec<u8>))
    requires
        0 <= p <= s.len(),
    ensures
        blobs_view(s.insert(p, x)) == blobs_view(s).insert(p, (x.0, x.1@)),
{
    assert(blobs_view(s.insert(p, x)) =~= blobs_view(s).insert(p, (x.0, x.1@)));
}

proof fn lemma_view_push<K>(s: Seq<(K, Vec<u8>)>, x: (K, Vec<u8>))
    ensures
        blobs_view(s.push(x)) == blobs_view(s).push((x.0, x.1@)),
{
    assert(blobs_view(s.push(x)) =~= blobs_view(s).push((x.0, x.1@)));
}

/// Inserting at the position a backward scan stops at is the stable insertion.
proof fn lemma_insert_at_scan(s: Seq<(u16, Seq<u8>)>, x: (u16, Seq<u8>), p: int)
    requires
        0 <= p <= s.len(),
        p == 0 || s[p - 1].0 <= x.0,
        forall|k: int| p <= k < s.len() ==> (#[trigger] s[k]).0 > x.0,
    ensures
        insert_by_code(s, x) == s.insert(p, x),
    decreases s.len(),
{
    if s.len() == 0 {
        assert(s.insert(p, x) =~= seq![x]);
    } else if p == s.len() {
        assert(s.insert(p, x) =~= s.push(x));
    } else {
        let t = s.drop_last();
        assert(s[s.len() - 1].0 > x.0);
        assert forall|k: int| p <= k < t.len() implies (#[trigger] t[k]).0 > x.0 by {
            assert(t[k] == s[k]);
        }
        lemma_insert_at_scan(t, x, p);
        assert(t.insert(p, x).push(s.last()) =~= s.insert(p, x));
    }
}

/// Insertion keeps every code under a common bound.
proof fn lemma_insert_bounded(s: Seq<(u16, Seq<u8>)>, x: (u16, Seq<u8>), b: u16)
    requires
        forall|k: int| 0 <= k < s.len() ==> (#[trigger] s[k]).0 <= b,
        x.0 <= b,
    ensures
        forall|k: int|
            0 <= k < insert_by_code(s, x).len() ==> (#[trigger] insert_by_code(s, x)[k]).0 <= b,
        insert_by_code(s, x).len() == s.len() + 1,
    decreases s.len(),
{
    if s.len() > 0 && s.last().0 > x.0 {
        let t = s.drop_last();
        assert forall|k: int| 0 <= k < t.len() implies (#[trigger] t[k]).0 <= b by {
            assert(t[k] == s[k]);
        }
        lemma_insert_bounded(t, x, b);
        assert(s[s.len() - 1] == s.last());
    }
}

/// Insertion keeps a table sorted.
proof fn lemma_insert_sorted(s: Seq<(u16, Seq<u8>)>, x: (u16, Seq<u8>))
    requires
        codes_sorted(s),
    ensures
        codes_sorted(insert_by_code(s, x)),
        insert_by_code(s, x).len() == s.len() + 1,
    decreases s.len(),
{
    if s.len() == 0 {
    } else if s.last().0 <= x.0 {
        let r = s.push(x);
        assert forall|i: int, j: int| 0 <= i < j < r.len() implies (#[trigger] r[i]).0 <= (
        #[trigger] r[j]).0 by {
            if j == s.len() {
                assert(s[i].0 <= s[s.len() - 1].0 || i == s.len() - 1);
            }
        }
    } else {
        let t = s.drop_last();
        let last = s.last();
        assert(codes_sorted(t)) by {
            assert forall|i: int, j: int| 0 <= i < j < t.len() implies (#[trigger] t[i]).0 <= (
            #[trigger] t[j]).0 by {
                assert(t[i] == s[i] && t[j] == s[j]);
            }
        }
        lemma_insert_sorted(t, x);
        assert forall|k: int| 0 <= k < t.len() implies (#[trigger] t[k]).0 <= last.0 by {
            assert(t[k] == s[k]);
            assert(s[s.len() - 1] == last);
        }
        lemma_insert_bounded(t, x, last.0);
        let u = insert_by_code(t, x);
        let r = u.push(last);
        assert forall|i: int, j: int| 0 <= i < j < r.len() implies (#[trigger] r[i]).0 <= (
        #[trigger] r[j]).0 by {
            if j == u.len() {
                assert(u[i].0 <= last.0);
            } else {
                assert(r[i] == u[i] && r[j] == u[j]);
            }
        }
    }
}

/// A stable sort by code is sorted by code.
pub proof fn lemma_sort_by_code_sorted(s: Seq<(u16, Seq<u8>)>)
    ensures
        codes_sorted(sort_by_code(s)),
        sort_by_code(s).len() == s.len(),
    decreases s.len(),
{
    if s.len() > 0 {
        lemma_sort_by_code_sorted(s.drop_last());
        lemma_insert_sorted(sort_by_code(s.drop_last()), s.last());
    }
}

/// Stable insertion into a feature table, by code.
fn insert_feature(v: &mut Vec<(u16, Vec<u8>)>, x: (u16, Vec<u8>))
    ensures
        blobs_view(final(v)@) == insert_by_code(blobs_view(old(v)@), (x.0, x.1@)),
{
    let ghost s = blobs_view(v@);
    let mut p = v.len();
    while p > 0 && v[p - 1].0 > x.0
        invariant
            p <= v@.len(),
            s == blobs_view(v@),
            forall|k: int| p <= k < v@.len() ==> (#[trigger] v@[k]).0 > x.0,
        decreases p,
    {
        p = p - 1;
    }
    proof {
        assert forall|k: int| p <= k < s.len() implies (#[trigger] s[k]).0 > x.0 by {
            assert(s[k].0 == v@[k].0);
        }
        lemma_insert_at_scan(s, (x.0, x.1@), p as int);
        lemma_view_insert(v@, p as int, x);
    }
    v.insert(p, x);
}

/// The feature table of blobs read in declaration order: empty blobs (absent
/// files) dropped, the rest stably sorted by feature code.
pub fn feature_table(blobs: Vec<(u16, Vec<u8>)>) -> (r: Vec<(u16, Vec<u8>)>)
    ensures
        blobs_view(r@) == feature_table_of(blobs_view(blobs@)),
        codes_sorted(blobs_view(r@)),
{
    let ghost all = blobs_view(blobs@);
    let n = blobs.len();
    let mut rest = blobs;
    let mut out: Vec<(u16, Vec<u8>)> = Vec::new();
    let ghost mut kept: Seq<(u16, Seq<u8>)> = Seq::empty();
    let mut i: usize = 0;
    proof {
        assert(all.skip(0) =~= all);
        assert(all.take(0) =~= Seq::<(u16, Seq<u8>)>::empty());
    }
    while rest.len() > 0
        invariant
            i <= all.len(),
            all.len() == n,
            blobs_view(rest@) == all.skip(i as int),
            kept == non_empty(all.take(i as int)),
            blobs_view(out@) == sort_by_code(kept),
        decreases rest@.len(),
    {
        let ghost before = rest@;
        proof {
            assert(blobs_view(before).len() == before.len());
            assert(i < all.len());
            assert(all.skip(i as int)[0] == all[i as int]);
            assert(blobs_view(before)[0] == all[i as int]);
            assert(all.take(i + 1).drop_last() =~= all.take(i as int));
            assert(all.take(i + 1).last() == all[i as int]);
        }
        let x = rest.remove(0);
        proof {
            assert(rest@ =~= before.skip(1));
            assert(blobs_view(rest@) =~= blobs_view(before).skip(1));
            assert(blobs_view(before).skip(1) =~= all.skip(i + 1));
        }
        if x.1.len() > 0 {
            proof {
                let old_kept = kept;
                kept = kept.push((x.0, x.1@));
                assert(kept.drop_last() =~= old_kept);
            }
            insert_feature(&mut out, x);
        }
        i = i + 1;
    }
    proof {
        assert(all.take(all.len() as int) =~= all);
        lemma_sort_by_code_sorted(kept);
    }
    out
}

/// The entries of `v` whose blob is not empty, in order.
fn keep_non_empty<K>(v: Vec<(K, Vec<u8>)>) -> (r: Vec<(K, Vec<u8>)>)
    ensures
        blobs_view(r@) == non_empty(blobs_view(v@)),
{
    let ghost all = blobs_view(v@);
    let n = v.len();
    let mut rest = v;
    let mut out: Vec<(K, Vec<u8>)> = Vec::new();
    let mut i: usize = 0;
    proof {
        assert(all.skip(0) =~= all);
        assert(blobs_view(out@) =~= non_empty(all.take(0)));
    }
    while rest.len() > 0
        invariant
            i <= all.len(),
            all.len() == n,
            blobs_view(rest@) == all.skip(i as int),
            blobs_view(out@) == non_empty(all.take(i as int)),
        decreases rest@.len(),
    {
        let ghost before = rest@;
        proof {
            assert(blobs_view(before).len() == before.len());
            assert(i < all.len());
            assert(all.skip(i as int)[0] == all[i as int]);
            assert(blobs_view(before)[0] == all[i as int]);
            assert(all.take(i + 1).drop_last() =~= all.take(i as int));
            assert(all.take(i + 1).last() == all[i as int]);
        }
        let x = rest.remove(0);
        proof {
            assert(blobs_view(rest@) =~= blobs_view(before).skip(1));
            assert(blobs_view(before).skip(1) =~= all.skip(i + 1));
        }
        if x.1.len() > 0 {
            proof {
                lemma_view_push(out@, x);
            }
            out.push(x);
        }
        i = i + 1;
    }
    proof {
        assert(all.take(all.len() as int) =~= all);
    }
    out
}

/// Whether some entry of `v` has id `id`.
fn contains_id(v: &Vec<(u8, Vec<u8>)>, id: u8) -> (b: bool)
    ensures
        b == has_id(blobs_view(v@), id),
{
    let mut i: usize = 0;
    while i < v.len()
        invariant
            i <= v@.len(),
            forall|k: int| 0 <= k < i ==> (#[trigger] v@[k]).0 != id,
        decreases v@.len() - i,
    {
        if v[i].0 == id {
            assert(blobs_view(v@)[i as int].0 == id);
            return true;
        }
        i = i + 1;
    }
    proof {
        if has_id(blobs_view(v@), id) {
            let k = choose|k: int| 0 <= k < blobs_view(v@).len() && (#[trigger] blobs_view(v@)[k]).0 == id;
            assert(v@[k].0 == id);
        }
    }
    false
}

/// The read-buffer table: the non-empty blobs `drive.toml` lists, in order,
/// then each scanned `rb_XX.bin` blob (in scan order) that is not empty and
/// whose id is not present yet.
pub fn read_buffer_table(listed: Vec<(u8, Vec<u8>)>, scanned: Vec<(u8, Vec<u8>)>) -> (r: Vec<
    (u8, Vec<u8>),
>)
    ensures
        blobs_view(r@) == read_buffer_table_of(blobs_view(listed@), blobs_view(scanned@)),
{
    let mut out = keep_non_empty(listed);
    let ghost base = blobs_view(out@);
    let ghost all = blobs_view(scanned@);
    let n = scanned.len();
    let mut rest = scanned;
    let mut j: usize = 0;
    proof {
        assert(all.skip(0) =~= all);
        assert(all.take(0) =~= Seq::<(u8, Seq<u8>)>::empty());
    }
    while rest.len() > 0
        invariant
            j <= all.len(),
            all.len() == n,
            blobs_view(rest@) == all.skip(j as int),
            blobs_view(out@) == add_scanned(base, all.take(j as int)),
        decreases rest@.len(),
    {
        let ghost before = rest@;
        proof {
            assert(blobs_view(before).len() == before.len());
            assert(j < all.len());
            assert(all.skip(j as int)[0] == all[j as int]);
            assert(blobs_view(before)[0] == all[j as int]);
            assert(all.take(j + 1).drop_last() =~= all.take(j as int));
            assert(all.take(j + 1).last() == all[j as int]);
        }
        let x = rest.remove(0);
        proof {
            assert(blobs_view(rest@) =~= blobs_view(before).skip(1));
            assert(blobs_view(before).skip(1) =~= all.skip(j + 1));
        }
        if x.1.len() > 0 && !contains_id(&out, x.0) {
            proof {
                lemma_view_push(out@, x);
            }
            out.push(x);
        }
        j = j + 1;
    }
    proof {
        assert(all.take(all.len() as int) =~= all);
    }
    out
}

impl DriveToml {
    /// The file holding the RPC state, when `drive.toml` names one.
    pub fn rpc_state_file(&self) -> (r: Option<String>)
        ensures
            match r {
                Some(f) => self.rpc_file@.len() > 0 && f@ == self.rpc_file@,
                None => self.rpc_file@.len() == 0,
            },
    {
        if self.rpc_file.as_str().is_empty() {
            None
        } else {
            Some(self.rpc_file.clone())
        }
    }

    /// The file holding mode page 0x2A: the one `drive.toml` names, else
    /// `mode_2a.bin`.
    pub fn mode_2a_file_name(&self) -> (r: String)
        ensures
            r@ == (if self.mode_2a_file@.len() > 0 {
                self.mode_2a_file@
            } else {
                "mode_2a.bin"@
            }),
    {
        if self.mode_2a_file.as_str().is_empty() {
            String::from_str("mode_2a.bin")
        } else {
            self.mode_2a_file.clone()
        }
    }
}

/// The blobs read for a profile directory. `features` pairs each feature
/// code of `drive.toml` with its file's bytes, `listed_bufs` each buffer id
/// of `[read_buffer]`, and `scanned_bufs` each `rb_XX.bin` file found in the
/// directory; an absent file reads as no bytes.
pub struct DirBlobs {
    pub inquiry: Vec<u8>,
    pub features: Vec<(u16, Vec<u8>)>,
    pub rpc_state: Vec<u8>,
    pub listed_bufs: Vec<(u8, Vec<u8>)>,
    pub scanned_bufs: Vec<(u8, Vec<u8>)>,
    pub mode_2a: Vec<u8>,
}

/// The profile of a directory: the name and current profile of its
/// `drive.toml`, the feature table (empty blobs dropped, sorted by code),
/// the read-buffer table, and the other blobs as read.
pub fn profile_from_dir(cfg: DriveToml, blobs: DirBlobs, disc: Option<DiscProfile>) -> (p:
    LoadedProfile)
    requires
        disc matches Some(d) ==> map_wf(d.sector_map@),
    ensures
        p.name@ == cfg.name@,
        p.current_profile == cfg.current_profile,
        p.inquiry@ == blobs.inquiry@,
        blobs_view(p.features@) == feature_table_of(blobs_view(blobs.features@)),
        codes_sorted(blobs_view(p.features@)),
        p.rpc_state@ == blobs.rpc_state@,
        blobs_view(p.read_bufs@) == read_buffer_table_of(
            blobs_view(blobs.listed_bufs@),
            blobs_view(blobs.scanned_bufs@),
        ),
        p.mode_2a@ == blobs.mode_2a@,
        p.disc == disc,
        p.wf(),
{
    let features = feature_table(blobs.features);
    let read_bufs = read_buffer_table(blobs.listed_bufs, blobs.scanned_bufs);
    LoadedProfile {
        name: cfg.name,
        inquiry: blobs.inquiry,
        current_profile: cfg.current_profile,
        features,
        rpc_state: blobs.rpc_state,
        read_bufs,
        mode_2a: blobs.mode_2a,
        disc,
    }
}

/// Pairs of strings as pairs of character sequences.
pub open spec fn text_pairs(s: Seq<(String, String)>) -> Seq<(Seq<char>, Seq<char>)> {
    Seq::new(s.len(), |i: int| (s[i].0@, s[i].1@))
}

/// JSON features `(code, hex)`: those whose code parses, with their bytes.
pub open spec fn coded_hex(fs: Seq<(Seq<char>, Seq<char>)>) -> Seq<(u16, Seq<u8>)>
    decreases fs.len(),
{
    if fs.len() == 0 {
        Seq::empty()
    } else {
        let r = coded_hex(fs.drop_last());
        match u16_text(fs.last().0) {
            Some(c) => r.push((c, hex_blob(fs.last().1))),
            None => r,
        }
    }
}

/// JSON read buffers `(id, hex)`: those whose id parses, with their bytes.
pub open spec fn keyed_hex(bs: Seq<(Seq<char>, Seq<char>)>) -> Seq<(u8, Seq<u8>)>
    decreases bs.len(),
{
    if bs.len() == 0 {
        Seq::empty()
    } else {
        let r = keyed_hex(bs.drop_last());
        match buffer_key(bs.last().0) {
            Some(id) => r.push((id, hex_blob(bs.last().1))),
            None => r,
        }
    }
}

/// The bytes of an optional hexadecimal dump; none when it is absent.
pub open spec fn opt_hex(h: Option<String>) -> Seq<u8> {
    match h {
        Some(s) => hex_blob(s@),
        None => Seq::empty(),
    }
}

fn opt_parse_hex(h: &Option<String>) -> (r: Vec<u8>)
    ensures
        r@ == opt_hex(*h),
{
    match h {
        Some(s) => parse_hex(s.as_str()),
        None => Vec::new(),
    }
}

/// The profile of a JSON description, given its fields: the product name,
/// the INQUIRY data, the current profile (0x0043 when it does not parse),
/// the features and read buffers keyed by their JSON keys (keys that do not
/// parse are skipped), and the optional RPC state and mode page 0x2A. All
/// blobs are hexadecimal text. Features are sorted by code; features and
/// read buffers with no bytes are dropped.
pub fn profile_from_json(
    product: String,
    inquiry_hex: &str,
    current_profile: &str,
    features: &Vec<(String, String)>,
    read_buffer: &Vec<(String, String)>,
    rpc_hex: Option<String>,
    page_2a_hex: Option<String>,
) -> (p: LoadedProfile)
    ensures
        p.name@ == product@,
        p.inquiry@ == hex_blob(inquiry_hex@),
        p.current_profile == (match u16_text(current_profile@) {
            Some(v) => v,
            None => 0x0043u16,
        }),
        blobs_view(p.features@) == feature_table_of(coded_hex(text_pairs(features@))),
        codes_sorted(blobs_view(p.features@)),
        blobs_view(p.read_bufs@) == non_empty(keyed_hex(text_pairs(read_buffer@))),
        p.rpc_state@ == opt_hex(rpc_hex),
        p.mode_2a@ == opt_hex(page_2a_hex),
        p.disc is None,
        p.wf(),
{
    let mut coded: Vec<(u16, Vec<u8>)> = Vec::new();
    let mut i: usize = 0;
    while i < features.len()
        invariant
            i <= features@.len(),
            blobs_view(coded@) == coded_hex(text_pairs(features@).take(i as int)),
        decreases features@.len() - i,
    {
        proof {
            assert(text_pairs(features@).take(i + 1).drop_last() =~= text_pairs(features@).take(
                i as int,
            ));
            assert(text_pairs(features@).take(i + 1).last() == (features@[i as int].0@, features@[i as int].1@));
        }
        match parse_u16_opt(features[i].0.as_str()) {
            Some(c) => {
                let bytes = parse_hex(features[i].1.as_str());
                proof {
                    lemma_view_push(coded@, (c, bytes));
                }
                coded.push((c, bytes));
            },
            None => {},
        }
        i = i + 1;
    }
    proof {
        assert(text_pairs(features@).take(features@.len() as int) =~= text_pairs(features@));
    }
    let mut keyed: Vec<(u8, Vec<u8>)> = Vec::new();
    let mut j: usize = 0;
    while j < read_buffer.len()
        invariant
            j <= read_buffer@.len(),
            blobs_view(keyed@) == keyed_hex(text_pairs(read_buffer@).take(j as int)),
        decreases read_buffer@.len() - j,
    {
        proof {
            assert(text_pairs(read_buffer@).take(j + 1).drop_last() =~= text_pairs(
                read_buffer@,
            ).take(j as int));
            assert(text_pairs(read_buffer@).take(j + 1).last() == (read_buffer@[j as int].0@, read_buffer@[j as int].1@));
        }
        match parse_buffer_key(read_buffer[j].0.as_str()) {
            Some(id) => {
                let bytes = parse_hex(read_buffer[j].1.as_str());
                proof {
                    lemma_view_push(keyed@, (id, bytes));
                }
                keyed.push((id, bytes));
            },
            None => {},
        }
        j = j + 1;
    }
    proof {
        assert(text_pairs(read_buffer@).take(read_buffer@.len() as int) =~= text_pairs(
            read_buffer@,
        ));
    }
    let cp = match parse_u16_opt(current_profile) {
        Some(v) => v,
        None => 0x0043u16,
    };
    let inquiry = parse_hex(inquiry_hex);
    let rpc_state = opt_parse_hex(&rpc_hex);
    let mode_2a = opt_parse_hex(&page_2a_hex);
    LoadedProfile {
        name: product,
        inquiry,
        current_profile: cp,
        features: feature_table(coded),
        rpc_state,
        read_bufs: keep_non_empty(keyed),
        mode_2a,
        disc: None,
    }
}

/// The READ DISC STRUCTURE table of blobs `(format, bytes)` found in scan
/// order: the empty ones skipped, a later format replacing an earlier one.
pub open spec fn structure_map(s: Seq<(u8, Seq<u8>)>) -> Map<u8, Seq<u8>>
    decreases s.len(),
{
    if s.len() == 0 {
        Map::empty()
    } else {
        let m = structure_map(s.drop_last());
        if s.last().1.len() > 0 {
            m.insert(s.last().0, s.last().1)
        } else {
            m
        }
    }
}

/// A map of blobs by their bytes.
pub open spec fn map_view(m: Map<u8, Vec<u8>>) -> Map<u8, Seq<u8>> {
    m.map_values(|v: Vec<u8>| v@)
}

/// The blobs read for a disc directory; an absent file reads as no bytes.
/// `structures` pairs the format of each `ds_XX.bin` file with its bytes.
pub struct DiscBlobs {
    pub toc: Vec<u8>,
    pub capacity: Vec<u8>,
    pub disc_info: Vec<u8>,
    pub structures: Vec<(u8, Vec<u8>)>,
    pub sector_data: Vec<u8>,
    pub sectors: Vec<u8>,
}

/// The disc of a disc directory: its captured responses as read, its disc
/// structures by format, and its `sectors.bin` read as `parse_sector_file`
/// reads it.
pub fn disc_from_blobs(b: DiscBlobs) -> (d: DiscProfile)
    ensures
        d.toc@ == b.toc@,
        d.capacity@ == b.capacity@,
        d.disc_info@ == b.disc_info@,
        map_view(d.disc_structures@) == structure_map(blobs_view(b.structures@)),
        d.sector_data@ == b.sector_data@,
        (d.sectors@, d.sector_map@) == parsed_sector_file(b.sectors@),
        map_wf(d.sector_map@),
{
    let ghost all = blobs_view(b.structures@);
    let n = b.structures.len();
    let mut rest = b.structures;
    let mut table: HashMap<u8, Vec<u8>> = HashMap::new();
    let mut i: usize = 0;
    proof {
        assert(all.skip(0) =~= all);
        assert(map_view(table@) =~= structure_map(all.take(0)));
    }
    while rest.len() > 0
        invariant
            i <= all.len(),
            all.len() == n,
            blobs_view(rest@) == all.skip(i as int),
            map_view(table@) == structure_map(all.take(i as int)),
        decreases rest@.len(),
    {
        let ghost before = rest@;
        proof {
            assert(blobs_view(before).len() == before.len());
            assert(i < all.len());
            assert(all.skip(i as int)[0] == all[i as int]);
            assert(blobs_view(before)[0] == all[i as int]);
            assert(all.take(i + 1).drop_last() =~= all.take(i as int));
            assert(all.take(i + 1).last() == all[i as int]);
        }
        let x = rest.remove(0);
        proof {
            assert(blobs_view(rest@) =~= blobs_view(before).skip(1));
            assert(blobs_view(before).skip(1) =~= all.skip(i + 1));
        }
        if x.1.len() > 0 {
            let ghost old_table = table@;
            table.insert(x.0, x.1);
            proof {
                assert(map_view(table@) =~= map_view(old_table).insert(all[i as int].0, all[i as int].1));
            }
        }
        i = i + 1;
    }
    proof {
        assert(all.take(all.len() as int) =~= all);
    }
    let (sectors, sector_map) = parse_sector_file(b.sectors);
    DiscProfile {
        toc: b.toc,
        capacity: b.capacity,
        disc_info: b.disc_info,
        disc_structures: table,
        sector_data: b.sector_data,
        sectors,
        sector_map,
    }
}

/// The kinds of profile a path can hold.
#[derive(Debug, PartialEq, Eq, Structural, Clone, Copy)]
pub enum ProfileKind {
    /// A directory with `drive.toml` and `.bin` files.
    Directory,
    /// A JSON file.
    Json,
    /// Neither.
    Unknown,
}

/// A directory is a profile directory; otherwise a path ending in `.json`
/// is a JSON profile.
pub open spec fn profile_kind_of(path: Seq<char>, is_dir: bool) -> ProfileKind {
    if is_dir {
        ProfileKind::Directory
    } else if path.len() >= 5 && path.skip(path.len() - 5) == ".json"@ {
        ProfileKind::Json
    } else {
        ProfileKind::Unknown
    }
}

/// The kind of profile at `path` (see `profile_kind_of`).
pub fn profile_kind(path: &str, is_dir: bool) -> (k: ProfileKind)
    ensures
        k == profile_kind_of(path@, is_dir),
{
    if is_dir {
        return ProfileKind::Directory;
    }
    let v = crate::text::chars_of(path);
    let n = v.len();
    if n >= 5 && crate::text::span_is(&v, n - 5, n, ".json") {
        assert(v@.subrange(n - 5, n as int) =~= path@.skip(n - 5));
        ProfileKind::Json
    } else {
        proof {
            if n >= 5 {
                assert(v@.subrange(n - 5, n as int) =~= path@.skip(n - 5));
            }
        }
        ProfileKind::Unknown
    }
}

/// Whether a blob name from `drive.toml` may be read: a single plain file
/// name beside `drive.toml` (not empty, absolute, `.`/`..`, and without a
/// separator or NUL). Any other name would reach outside the profile.
pub fn blob_name_ok(name: &str) -> (b: bool)
    ensures
        b == plain_name(name@),
{
    is_plain_disc_name(name)
}

/// The named blobs whose names may be read, in order.
pub open spec fn plain_named<K>(s: Seq<(K, Seq<char>)>) -> Seq<(K, Seq<char>)>
    decreases s.len(),
{
    if s.len() == 0 {
        s
    } else {
        let r = plain_named(s.drop_last());
        if plain_name(s.last().1) {
            r.push(s.last())
        } else {
            r
        }
    }
}

/// The names of the named blobs that are refused, in order.
pub open spec fn refused_named<K>(s: Seq<(K, Seq<char>)>) -> Seq<Seq<char>>
    decreases s.len(),
{
    if s.len() == 0 {
        Seq::empty()
    } else {
        let r = refused_named(s.drop_last());
        if plain_name(s.last().1) {
            r
        } else {
            r.push(s.last().1)
        }
    }
}

/// A name that is read when it is plain, and refused otherwise.
pub open spec fn checked(name: Seq<char>) -> Option<Seq<char>> {
    if plain_name(name) {
        Some(name)
    } else {
        None
    }
}

/// A name refused: nothing when it is plain.
pub open spec fn refusal(name: Seq<char>) -> Seq<Seq<char>> {
    if plain_name(name) {
        Seq::empty()
    } else {
        seq![name]
    }
}

/// The mode page 0x2A file a configuration names (`mode_2a.bin` when none).
pub open spec fn mode_2a_name(m: crate::drive_toml::TomlModel) -> Seq<char> {
    if m.mode_2a_file.len() > 0 {
        m.mode_2a_file
    } else {
        "mode_2a.bin"@
    }
}

/// The files a profile directory's blobs are read from. A name that would
/// reach outside the directory is not in the plan: it is listed in
/// `refused` and its blob is absent.
pub struct BlobPlan {
    pub inquiry: Option<String>,
    pub features: Vec<(u16, String)>,
    /// `None` as well when `drive.toml` names no RPC state file.
    pub rpc_state: Option<String>,
    pub read_buffers: Vec<(u8, String)>,
    pub mode_2a: Option<String>,
    pub refused: Vec<String>,
}

/// The plan for a configuration (see `blob_plan`).
pub open spec fn plan_refused(m: crate::drive_toml::TomlModel) -> Seq<Seq<char>> {
    refusal(m.inquiry_file) + refused_named(m.feature_files) + (if m.rpc_file.len() > 0 {
        refusal(m.rpc_file)
    } else {
        Seq::empty()
    }) + refused_named(m.rb_files) + refusal(mode_2a_name(m))
}

fn checked_name(name: &String, refused: &mut Vec<String>) -> (r: Option<String>)
    ensures
        opt_string(r) == checked(name@),
        crate::cli::texts(final(refused)@) == crate::cli::texts(old(refused)@) + refusal(name@),
{
    if blob_name_ok(name.as_str()) {
        assert(crate::cli::texts(refused@) =~= crate::cli::texts(refused@) + refusal(name@));
        Some(name.clone())
    } else {
        let ghost before = refused@;
        refused.push(name.clone());
        assert(crate::cli::texts(refused@) =~= crate::cli::texts(before) + refusal(name@));
        None
    }
}

/// The view of an optional string.
pub open spec fn opt_string(o: Option<String>) -> Option<Seq<char>> {
    match o {
        Some(s) => Some(s@),
        None => None,
    }
}

fn checked_list<K: Copy>(items: &Vec<(K, String)>, refused: &mut Vec<String>) -> (r: Vec<(K, String)>)
    ensures
        keyed(r@) == plain_named(keyed(items@)),
        crate::cli::texts(final(refused)@) == crate::cli::texts(old(refused)@) + refused_named(keyed(items@)),
{
    let mut out: Vec<(K, String)> = Vec::new();
    let mut i: usize = 0;
    assert(keyed(items@).take(0) =~= Seq::<(K, Seq<char>)>::empty());
    assert(crate::cli::texts(refused@) =~= crate::cli::texts(old(refused)@) + refused_named(keyed(items@).take(0)));
    while i < items.len()
        invariant
            i <= items@.len(),
            keyed(out@) == plain_named(keyed(items@).take(i as int)),
            crate::cli::texts(refused@) == crate::cli::texts(old(refused)@) + refused_named(keyed(items@).take(i as int)),
        decreases items@.len() - i,
    {
        let ghost t = keyed(items@);
        assert(t.take(i + 1).drop_last() =~= t.take(i as int));
        assert(t.take(i + 1).last() == (items@[i as int].0, items@[i as int].1@));
        let name = &items[i].1;
        if blob_name_ok(name.as_str()) {
            let ghost before = out@;
            out.push((items[i].0, name.clone()));
            assert(keyed(out@) =~= keyed(before).push((items@[i as int].0, items@[i as int].1@)));
        } else {
            let ghost before = refused@;
            refused.push(name.clone());
            assert(crate::cli::texts(refused@) =~= crate::cli::texts(before).push(items@[i as int].1@));
            assert(crate::cli::texts(old(refused)@) + refused_named(t.take(i + 1)) =~= (crate::cli::texts(old(refused)@) + refused_named(t.take(i as int))).push(items@[i as int].1@));
        }
        i = i + 1;
    }
    assert(keyed(items@).take(items@.len() as int) =~= keyed(items@));
    out
}

/// The files to read for a configuration: each name `drive.toml` gives
/// (the mode page defaulting to `mode_2a.bin`), kept when it is a plain
/// file name and refused otherwise; no RPC state file when none is named.
pub fn blob_plan(cfg: &DriveToml) -> (p: BlobPlan)
    ensures
        opt_string(p.inquiry) == checked(cfg.model().inquiry_file),
        keyed(p.features@) == plain_named(cfg.model().feature_files),
        opt_string(p.rpc_state) == (if cfg.model().rpc_file.len() > 0 {
            checked(cfg.model().rpc_file)
        } else {
            None
        }),
        keyed(p.read_buffers@) == plain_named(cfg.model().rb_files),
        opt_string(p.mode_2a) == checked(mode_2a_name(cfg.model())),
        crate::cli::texts(p.refused@) == plan_refused(cfg.model()),
{
    let mut refused: Vec<String> = Vec::new();
    let inquiry = checked_name(&cfg.inquiry_file, &mut refused);
    let features = checked_list(&cfg.feature_files, &mut refused);
    let rpc_state = match cfg.rpc_state_file() {
        Some(f) => checked_name(&f, &mut refused),
        None => None,
    };
    let read_buffers = checked_list(&cfg.rb_files, &mut refused);
    let mode_2a = checked_name(&cfg.mode_2a_file_name(), &mut refused);
    proof {
        let m = cfg.model();
        assert(crate::cli::texts(refused@) =~= plan_refused(m));
    }
    BlobPlan { inquiry, features, rpc_state, read_buffers, mode_2a, refused }
}

/// What `String::from_utf8_lossy` gives for some bytes.
pub uninterp spec fn lossy_text(b: Seq<u8>) -> Seq<char>;

/// `String::from_utf8_lossy` on `bytes[from..to]`: its result is named
/// `lossy_text` of those bytes; bytes that are valid UTF-8 give the text
/// they encode, unchanged.
#[verifier::external_body]
fn lossy_utf8(bytes: &[u8], from: usize, to: usize) -> (r: String)
    requires
        from <= to <= bytes@.len(),
    ensures
        r@ == lossy_text(bytes@.subrange(from as int, to as int)),
        vstd::utf8::valid_utf8(bytes@.subrange(from as int, to as int)) ==> r@
            == vstd::utf8::decode_utf8(bytes@.subrange(from as int, to as int)),
{
    String::from_utf8_lossy(&bytes[from..to]).into_owned()
}

/// The drive's firmware date: bytes 4..16 of feature 0x010C (fewer when
/// it is shorter), decoded lossily and trimmed; empty without such a
/// feature or when it holds no more than its 4-byte header.
pub open spec fn firmware_date_of(p: LoadedProfile) -> Seq<char> {
    match first_feature(p.features@, 0x010C) {
        Some(d) => if d.len() > 4 {
            ws_trim(lossy_text(d.subrange(4, if d.len() < 16 { d.len() as int } else { 16 })))
        } else {
            Seq::empty()
        },
        None => Seq::empty(),
    }
}

impl LoadedProfile {
    /// The firmware date the unlock profile lookup matches on (see
    /// `firmware_date_of`).
    pub fn firmware_date(&self) -> (r: String)
        ensures
            r@ == firmware_date_of(*self),
    {
        match self.find_feature(0x010C) {
            Some(d) => {
                let n = d.len();
                if n > 4 {
                    let end = if n < 16 { n } else { 16 };
                    let text = lossy_utf8(d, 4, end);
                    let v = crate::text::chars_of(text.as_str());
                    assert(v@.subrange(0, v@.len() as int) =~= text@);
                    let (a, b) = trim_span(&v, 0, v.len(), Strip::Space);
                    string_of(&v, a, b)
                } else {
                    String::new()
                }
            },
            None => String::new(),
        }
    }
}

/// Every entry holds some bytes.
pub open spec fn all_non_empty<K>(s: Seq<(K, Seq<u8>)>) -> bool {
    forall|i: int| 0 <= i < s.len() ==> (#[trigger] s[i]).1.len() > 0
}

proof fn lemma_non_empty_all<K>(s: Seq<(K, Seq<u8>)>)
    ensures
        all_non_empty(non_empty(s)),
    decreases s.len(),
{
    if s.len() > 0 {
        lemma_non_empty_all(s.drop_last());
    }
}

proof fn lemma_insert_non_empty(s: Seq<(u16, Seq<u8>)>, x: (u16, Seq<u8>))
    requires
        all_non_empty(s),
        x.1.len() > 0,
    ensures
        all_non_empty(insert_by_code(s, x)),
    decreases s.len(),
{
    if s.len() > 0 && s.last().0 > x.0 {
        let t = s.drop_last();
        assert forall|i: int| 0 <= i < t.len() implies (#[trigger] t[i]).1.len() > 0 by {
            assert(t[i] == s[i]);
        }
        lemma_insert_non_empty(t, x);
        assert(s[s.len() - 1] == s.last());
    }
}

proof fn lemma_sort_non_empty(s: Seq<(u16, Seq<u8>)>)
    requires
        all_non_empty(s),
    ensures
        all_non_empty(sort_by_code(s)),
    decreases s.len(),
{
    if s.len() > 0 {
        let t = s.drop_last();
        assert forall|i: int| 0 <= i < t.len() implies (#[trigger] t[i]).1.len() > 0 by {
            assert(t[i] == s[i]);
        }
        lemma_sort_non_empty(t);
        assert(s[s.len() - 1] == s.last());
        lemma_insert_non_empty(sort_by_code(t), s.last());
    }
}

proof fn lemma_add_scanned_non_empty(acc: Seq<(u8, Seq<u8>)>, scanned: Seq<(u8, Seq<u8>)>)
    requires
        all_non_empty(acc),
    ensures
        all_non_empty(add_scanned(acc, scanned)),
    decreases scanned.len(),
{
    if scanned.len() > 0 {
        lemma_add_scanned_non_empty(acc, scanned.drop_last());
    }
}

proof fn lemma_plain_named<K>(s: Seq<(K, Seq<char>)>)
    ensures
        forall|i: int| 0 <= i < plain_named(s).len() ==> plain_name(#[trigger] plain_named(s)[i].1),
    decreases s.len(),
{
    if s.len() > 0 {
        lemma_plain_named(s.drop_last());
        let r = plain_named(s.drop_last());
        if plain_name(s.last().1) {
            assert forall|i: int| 0 <= i < r.push(s.last()).len() implies plain_name(
                #[trigger] r.push(s.last())[i].1,
            ) by {
                if i < r.len() {
                    assert(r.push(s.last())[i] == r[i]);
                }
            }
        }
    }
}

/// What loading a profile directory guarantees for any `drive.toml` and any
/// blobs read for it: the feature table is sorted by code and holds no empty
/// payload; the read-buffer table holds no empty payload; every file read is
/// a plain name beside `drive.toml`; and lines that do not parse add
/// nothing (the current profile stays 0x0043 without an accepted
/// `current_profile` line, and no feature or read-buffer file is listed
/// without a key that parses).
pub proof fn law_directory_profile(
    text: Seq<char>,
    features: Seq<(u16, Seq<u8>)>,
    listed: Seq<(u8, Seq<u8>)>,
    scanned: Seq<(u8, Seq<u8>)>,
)
    ensures
        codes_sorted(feature_table_of(features)),
        all_non_empty(feature_table_of(features)),
        all_non_empty(read_buffer_table_of(listed, scanned)),
        forall|i: int|
            0 <= i < plain_named(crate::drive_toml::drive_toml(text).feature_files).len()
                ==> plain_name(
                #[trigger] plain_named(crate::drive_toml::drive_toml(text).feature_files)[i].1,
            ),
        forall|i: int|
            0 <= i < plain_named(crate::drive_toml::drive_toml(text).rb_files).len()
                ==> plain_name(#[trigger] plain_named(crate::drive_toml::drive_toml(text).rb_files)[i].1),
        !crate::drive_toml::some_line(text, crate::drive_toml::LineKind::Profile)
            ==> crate::drive_toml::drive_toml(text).current_profile == 0x0043,
        !crate::drive_toml::some_line(text, crate::drive_toml::LineKind::FeatureKey)
            ==> crate::drive_toml::drive_toml(text).feature_files.len() == 0,
        !crate::drive_toml::some_line(text, crate::drive_toml::LineKind::BufferKey)
            ==> crate::drive_toml::drive_toml(text).rb_files.len() == 0,
{
    lemma_sort_by_code_sorted(non_empty(features));
    lemma_non_empty_all(features);
    lemma_sort_non_empty(non_empty(features));
    lemma_non_empty_all(listed);
    lemma_add_scanned_non_empty(non_empty(listed), scanned);
    lemma_plain_named(crate::drive_toml::drive_toml(text).feature_files);
    lemma_plain_named(crate::drive_toml::drive_toml(text).rb_files);
    crate::drive_toml::law_whole_file_defaults(text);
}

} // verus!
