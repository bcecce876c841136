//! MMC-6 / SPC-4 SCSI command handlers.
//!
//! `handle_scsi` answers one request from a loaded profile. Its behaviour is
//! stated as `scsi_outcome`: the reply (GOOD with nothing transferred, a data
//! response, or CHECK CONDITION with a sense triple) and the emulator state
//! that follows.

use crate::profile::{
    LoadedProfile, DiscProfile, SectorRange, SECTOR_SIZE, map_wf, range_end, range_holds,
    sector_offset, lemma_sector_offset_of, first_feature, first_read_buf, opt_bytes,
};
use crate::sg::{SgIoHdr, SENSE_LEN, fixed_sense_byte};
use vstd::prelude::*;

verus! {

broadcast use vstd::std_specs::hash::group_hash_axioms;

/// Emulator state shared by every SCSI command.
pub struct ScsiState {
    /// A media change the host has not yet been told about; the next command
    /// other than INQUIRY or REQUEST SENSE gets UNIT ATTENTION for it.
    pub media_changed: bool,
    /// The one-shot NewMedia edge reported by GET EVENT STATUS NOTIFICATION.
    pub new_media_event: bool,
    /// Sense (key, ASC, ASCQ) latched by the last command, read and cleared by
    /// REQUEST SENSE.
    pub last_sense: (u8, u8, u8),
}

/// What the unlock handshake needs from the unlocker: the READ BUFFER shapes
/// (mode, buffer id) it recognises, the drive's signature from its profile
/// database (all zero when the drive is unknown) and its verification marker.
pub struct UnlockSupport {
    pub read_buffer_cdbs: Vec<(u8, u8)>,
    pub signature: [u8; 4],
    pub marker: [u8; 4],
}

/// The answer to one command.
pub ghost enum Reply {
    /// GOOD status, nothing transferred.
    Good,
    /// GOOD status with a data response.
    Data(Seq<u8>),
    /// CHECK CONDITION with (sense key, ASC, ASCQ).
    Check(u8, u8, u8),
}

/// The state once a reply went out: CHECK CONDITION latches its sense.
pub open spec fn latched(st: ScsiState, r: Reply) -> ScsiState {
    match r {
        Reply::Check(k, a, q) => ScsiState { last_sense: (k, a, q), ..st },
        _ => st,
    }
}

/// How a reply shows in the header, starting from `before`.
pub open spec fn responded(before: SgIoHdr, after: SgIoHdr, r: Reply) -> bool {
    match r {
        Reply::Good => after == before,
        Reply::Data(d) => {
            &&& before.same_but_data(after)
            &&& after.resid == before.resid_after_response(d)
            &&& match after.dxferp {
                Some(b) => before.data_after_response(d) == Some(b@),
                None => before.dxferp is None,
            }
        },
        Reply::Check(k, a, q) => {
            &&& before.same_but_sense(after)
            &&& after.status == 0x02
            &&& after.masked_status == 0x01
            &&& after.sb_len_wr == (if before.sbp is Some && before.mx_sb_len >= SENSE_LEN {
                SENSE_LEN
            } else {
                before.sb_len_wr
            })
            &&& match after.sbp {
                Some(b) => before.sense_after_check(k, a, q) == Some(b@),
                None => before.sbp is None,
            }
        },
    }
}

/// An answer computed by a handler.
pub enum Answer {
    Good,
    Data(Vec<u8>),
    Check(u8, u8, u8),
}

impl Answer {
    pub open spec fn view(&self) -> Reply {
        match self {
            Answer::Good => Reply::Good,
            Answer::Data(v) => Reply::Data(v@),
            Answer::Check(k, a, q) => Reply::Check(*k, *a, *q),
        }
    }
}

/// Sends an answer to the host and latches the sense of a CHECK CONDITION.
fn deliver(hdr: &mut SgIoHdr, st: &mut ScsiState, a: Answer)
    requires
        old(hdr).wf(),
    ensures
        final(hdr).wf(),
        responded(*old(hdr), *final(hdr), a@),
        *final(st) == latched(*old(st), a@),
{
    match a {
        Answer::Good => {},
        Answer::Data(v) => {
            hdr.write_response(v.as_slice());
        },
        Answer::Check(k, asc, ascq) => {
            hdr.set_check_condition(k, asc, ascq);
            st.last_sense = (k, asc, ascq);
        },
    }
}

impl ScsiState {
    /// No media change pending, no event armed, no sense latched.
    pub fn new() -> (s: Self)
        ensures
            !s.media_changed,
            !s.new_media_event,
            s.last_sense == (0u8, 0u8, 0u8),
    {
        ScsiState { media_changed: false, new_media_event: false, last_sense: (0, 0, 0) }
    }
}

/// Signal (or withdraw) a disc change. A change also arms the one-shot
/// NewMedia event, so a host polling GET EVENT STATUS NOTIFICATION sees the
/// new disc exactly once.
pub fn set_media_changed(state: &mut ScsiState, changed: bool)
    ensures
        final(state).media_changed == changed,
        final(state).new_media_event == (changed || old(state).new_media_event),
        final(state).last_sense == old(state).last_sense,
{
    state.media_changed = changed;
    if changed {
        state.new_media_event = true;
    }
}

// ---------------------------------------------------------------------------
// Sparse sector lookup
// ---------------------------------------------------------------------------

/// Binary search of a sparse sector map. Returns the byte offset of `lba`'s
/// sector, or `None` when no range holds it.
pub fn lookup_sector(map: &[SectorRange], lba: u32) -> (r: Option<usize>)
    requires
        map_wf(map@),
    ensures
        match r {
            Some(o) => sector_offset(map@, lba as int) == Some(o as int),
            None => sector_offset(map@, lba as int) is None,
        },
{
    let mut lo: usize = 0;
    let mut hi: usize = map.len();
    while lo < hi
        invariant
            lo <= hi <= map@.len(),
            map_wf(map@),
            forall|i: int| 0 <= i < lo ==> range_end(#[trigger] map@[i]) <= lba,
            forall|i: int| hi <= i < map@.len() ==> (#[trigger] map@[i]).0 > lba,
        decreases hi - lo,
    {
        let mid = lo + (hi - lo) / 2;
        let (start, count, off) = map[mid];
        if lba < start {
            assert forall|i: int| mid <= i < map@.len() implies (#[trigger] map@[i]).0 > lba by {
                if i > mid {
                    assert(range_end(map@[mid as int]) <= map@[i].0);
                }
            }
            hi = mid;
        } else if lba as u64 >= start as u64 + count as u64 {
            assert forall|i: int| 0 <= i <= mid implies range_end(#[trigger] map@[i]) <= lba by {
                if i < mid {
                    assert(range_end(map@[i]) <= map@[mid as int].0);
                }
            }
            lo = mid + 1;
        } else {
            proof {
                lemma_sector_offset_of(map@, lba as int, mid as int);
            }
            return Some(off + (lba - start) as usize * SECTOR_SIZE);
        }
    }
    proof {
        assert forall|i: int| 0 <= i < map@.len() implies !range_holds(map@[i], lba as int) by {
            if i < lo {
                assert(range_end(map@[i]) <= lba);
            } else {
                assert(map@[i].0 > lba);
            }
        }
    }
    None
}


// ---------------------------------------------------------------------------
// Byte helpers
// ---------------------------------------------------------------------------

/// Big-endian bytes of a `u16`.
pub open spec fn be16(v: u16) -> Seq<u8> {
    seq![(v / 256) as u8, (v % 256) as u8]
}

/// Big-endian bytes of a `u32`.
pub open spec fn be32(v: u32) -> Seq<u8> {
    seq![(v / 16777216) as u8, ((v / 65536) % 256) as u8, ((v / 256) % 256) as u8, (v % 256) as u8]
}

/// The big-endian `u16` in CDB bytes `i`, `i + 1`.
pub open spec fn cdb_u16(h: SgIoHdr, i: int) -> u16 {
    (h.spec_cdb(i) as int * 256 + h.spec_cdb(i + 1) as int) as u16
}

/// The big-endian `u32` in CDB bytes `i` .. `i + 3`.
pub open spec fn cdb_u32(h: SgIoHdr, i: int) -> u32 {
    (h.spec_cdb(i) as int * 16777216 + h.spec_cdb(i + 1) as int * 65536 + h.spec_cdb(i + 2) as int
        * 256 + h.spec_cdb(i + 3) as int) as u32
}

/// `n` zero bytes.
pub open spec fn zero_bytes(n: int) -> Seq<u8> {
    Seq::new(n as nat, |i: int| 0u8)
}

fn push_be16(v: &mut Vec<u8>, x: u16)
    ensures
        final(v)@ == old(v)@ + be16(x),
{
    v.push((x / 256) as u8);
    v.push((x % 256) as u8);
    assert(final(v)@ =~= old(v)@ + be16(x));
}

fn push_be32(v: &mut Vec<u8>, x: u32)
    ensures
        final(v)@ == old(v)@ + be32(x),
{
    v.push((x / 16777216) as u8);
    v.push(((x / 65536) % 256) as u8);
    v.push(((x / 256) % 256) as u8);
    v.push((x % 256) as u8);
    assert(final(v)@ =~= old(v)@ + be32(x));
}

/// Appends every byte of `src`.
fn push_all(v: &mut Vec<u8>, src: &[u8])
    ensures
        final(v)@ == old(v)@ + src@,
{
    let ghost start = v@;
    let mut i: usize = 0;
    while i < src.len()
        invariant
            i <= src@.len(),
            v@ == start + src@.take(i as int),
        decreases src@.len() - i,
    {
        v.push(src[i]);
        i = i + 1;
        assert(v@ =~= start + src@.take(i as int));
    }
    assert(src@.take(src@.len() as int) =~= src@);
}

/// Appends `n` zero bytes.
fn push_zeros(v: &mut Vec<u8>, n: usize)
    ensures
        final(v)@ == old(v)@ + zero_bytes(n as int),
{
    let ghost start = v@;
    let mut i: usize = 0;
    while i < n
        invariant
            i <= n,
            v@ == start + zero_bytes(i as int),
        decreases n - i,
    {
        v.push(0);
        i = i + 1;
        assert(v@ =~= start + zero_bytes(i as int));
    }
}

/// A copy of `src`.
fn bytes_of(src: &[u8]) -> (v: Vec<u8>)
    ensures
        v@ == src@,
{
    let mut v: Vec<u8> = Vec::new();
    push_all(&mut v, src);
    assert(v@ =~= src@);
    v
}

// ---------------------------------------------------------------------------
// Command semantics
// ---------------------------------------------------------------------------

/// NOT READY / MEDIUM NOT PRESENT.
pub open spec fn not_ready() -> Reply {
    Reply::Check(0x02, 0x3A, 0x00)
}

/// ILLEGAL REQUEST / INVALID FIELD IN CDB.
pub open spec fn invalid_field() -> Reply {
    Reply::Check(0x05, 0x24, 0x00)
}

/// MEDIUM ERROR / UNRECOVERED READ ERROR.
pub open spec fn unrecovered_read() -> Reply {
    Reply::Check(0x03, 0x11, 0x00)
}

/// UNIT ATTENTION / MEDIUM MAY HAVE CHANGED.
pub open spec fn media_changed_attention() -> Reply {
    Reply::Check(0x06, 0x28, 0x00)
}

/// ILLEGAL REQUEST / INVALID COMMAND OPERATION CODE.
pub open spec fn invalid_opcode() -> Reply {
    Reply::Check(0x05, 0x20, 0x00)
}

/// 0x00 TEST UNIT READY: GOOD (clearing the latched sense) with a disc,
/// NOT READY without one.
pub open spec fn test_unit_ready_outcome(p: LoadedProfile, st: ScsiState) -> (Reply, ScsiState) {
    if p.disc is None {
        (not_ready(), st)
    } else {
        (Reply::Good, ScsiState { last_sense: (0u8, 0u8, 0u8), ..st })
    }
}

/// 18 bytes of fixed-format sense data.
pub open spec fn sense_data(key: u8, asc: u8, ascq: u8) -> Seq<u8> {
    Seq::new(18, |i: int| fixed_sense_byte(i, key, asc, ascq))
}

/// Sense bytes returned for an allocation length.
pub open spec fn sense_len(alloc: u8) -> int {
    if alloc < 18 { alloc as int } else { 18 }
}

/// 0x03 REQUEST SENSE: reports, then clears, a pending media change or the
/// latched sense.
pub open spec fn request_sense_outcome(h: SgIoHdr, st: ScsiState) -> (Reply, ScsiState) {
    let n = sense_len(h.spec_cdb(4));
    if st.media_changed {
        (Reply::Data(sense_data(0x06, 0x28, 0x00).take(n)), ScsiState { media_changed: false, ..st })
    } else {
        (
            Reply::Data(sense_data(st.last_sense.0, st.last_sense.1, st.last_sense.2).take(n)),
            ScsiState { last_sense: (0u8, 0u8, 0u8), ..st },
        )
    }
}

/// The unit serial number: the data of feature 0x0108 past its 4-byte
/// header, at most 255 bytes.
pub open spec fn unit_serial(p: LoadedProfile) -> Seq<u8> {
    let s = match first_feature(p.features@, 0x0108) {
        Some(f) => if f.len() > 4 { f.skip(4) } else { Seq::empty() },
        None => Seq::empty(),
    };
    if s.len() <= 255 { s } else { s.take(255) }
}

/// 0x12 INQUIRY: the standard data, or VPD page 0x00 (supported pages) or
/// 0x80 (unit serial number).
pub open spec fn inquiry_reply(h: SgIoHdr, p: LoadedProfile) -> Reply {
    if h.spec_cdb(1) & 0x01 == 0 {
        Reply::Data(p.inquiry@)
    } else if h.spec_cdb(2) == 0x00 {
        Reply::Data(seq![0x05u8, 0x00, 0x00, 0x02, 0x00, 0x80])
    } else if h.spec_cdb(2) == 0x80 {
        let serial = unit_serial(p);
        Reply::Data(seq![0x05u8, 0x80, 0x00, serial.len() as u8] + serial)
    } else {
        invalid_field()
    }
}

/// The capacity of a ~25 GB single-layer BD: last LBA 12219391, 2048-byte
/// blocks.
pub open spec fn default_capacity() -> Seq<u8> {
    be32(12219391) + be32(2048)
}

/// 0x25 READ CAPACITY.
pub open spec fn read_capacity_reply(p: LoadedProfile) -> Reply {
    match p.disc {
        Some(d) => if d.capacity@.len() > 0 {
            Reply::Data(d.capacity@)
        } else {
            Reply::Data(default_capacity())
        },
        None => not_ready(),
    }
}

/// The minimal TOC served when the disc has none captured.
pub open spec fn default_toc() -> Seq<u8> {
    seq![0x00u8, 0x0A, 0x01, 0x01, 0x00, 0x14, 0x01, 0x00, 0x00, 0x00, 0x00, 0x00]
}

/// 0x43 READ TOC/PMA/ATIP.
pub open spec fn read_toc_reply(p: LoadedProfile) -> Reply {
    match p.disc {
        Some(d) => if d.toc@.len() > 0 {
            Reply::Data(d.toc@)
        } else {
            Reply::Data(default_toc())
        },
        None => not_ready(),
    }
}

/// The disc information served when the disc has none captured.
pub open spec fn default_disc_info() -> Seq<u8> {
    seq![0x00u8, 0x20, 0x0E, 0x01, 0x01, 0x01, 0x01, 0x20] + zero_bytes(26)
}

/// 0x51 READ DISC INFORMATION.
pub open spec fn read_disc_info_reply(p: LoadedProfile) -> Reply {
    match p.disc {
        Some(d) => if d.disc_info@.len() > 0 {
            Reply::Data(d.disc_info@)
        } else {
            Reply::Data(default_disc_info())
        },
        None => not_ready(),
    }
}

/// The capabilities page served when the profile has none.
pub open spec fn default_mode_2a() -> Seq<u8> {
    seq![0x00u8, 0x1A, 0, 0, 0, 0, 0, 0, 0x2A, 0x12, 0x3F, 0x37] + zero_bytes(16)
}

/// 0x5A MODE SENSE(10): page 0x2A, or 0x3F (all pages); every other page is
/// ILLEGAL REQUEST.
pub open spec fn mode_sense_reply(h: SgIoHdr, p: LoadedProfile) -> Reply {
    let page = h.spec_cdb(2) & 0x3F;
    if page == 0x2A {
        if p.mode_2a@.len() > 0 {
            Reply::Data(p.mode_2a@)
        } else {
            Reply::Data(default_mode_2a())
        }
    } else if page == 0x3F {
        Reply::Data(p.mode_2a@)
    } else {
        invalid_field()
    }
}

/// The RPC state served when the profile has none.
pub open spec fn default_rpc_state() -> Seq<u8> {
    seq![0x00u8, 0x06, 0x00, 0x00, 0x25, 0xFF, 0x01, 0x00]
}

/// 0xA4 REPORT KEY: only the RPC state (class 0x08, format 0x08).
pub open spec fn report_key_reply(h: SgIoHdr, p: LoadedProfile) -> Reply {
    if h.spec_cdb(7) == 0x08 && h.spec_cdb(10) & 0x3F == 0x08 {
        if p.rpc_state@.len() > 0 {
            Reply::Data(p.rpc_state@)
        } else {
            Reply::Data(default_rpc_state())
        }
    } else {
        invalid_field()
    }
}

/// 0xAD READ DISC STRUCTURE: the captured structure for the format in CDB
/// byte 7, or an empty header.
pub open spec fn read_disc_structure_reply(h: SgIoHdr, p: LoadedProfile) -> Reply {
    match p.disc {
        Some(d) => if d.disc_structures@.contains_key(h.spec_cdb(7)) {
            Reply::Data(d.disc_structures@[h.spec_cdb(7)]@)
        } else {
            Reply::Data(seq![0x00u8, 0x02, 0x00, 0x00])
        },
        None => not_ready(),
    }
}

/// 0x4A GET EVENT STATUS NOTIFICATION (polled only). The media class reports
/// NewMedia once after a disc change, then NoChange.
pub open spec fn get_event_outcome(h: SgIoHdr, p: LoadedProfile, st: ScsiState) -> (
    Reply,
    ScsiState,
) {
    if h.spec_cdb(1) & 0x01 == 0 {
        (invalid_field(), st)
    } else if h.spec_cdb(4) & 0x10 != 0 {
        if p.disc is Some {
            (
                Reply::Data(
                    seq![0x00u8, 0x06, 0x04, 0x10, if st.new_media_event { 0x02u8 } else { 0x00u8 }, 0x02, 0x00, 0x00],
                ),
                ScsiState { new_media_event: false, ..st },
            )
        } else {
            (Reply::Data(seq![0x00u8, 0x06, 0x04, 0x10, 0x00, 0x00, 0x00, 0x00]), st)
        }
    } else {
        (Reply::Data(seq![0x00u8, 0x02, 0x00, 0x10]), st)
    }
}

/// Whether the unlocker claims this READ BUFFER shape.
pub open spec fn unlock_claims(u: UnlockSupport, mode: u8, buf_id: u8) -> bool {
    exists|i: int| 0 <= i < u.read_buffer_cdbs@.len() && u.read_buffer_cdbs@[i] == (mode, buf_id)
}

/// Length of the unlock reply: the host's transfer length, at most 64.
pub open spec fn unlock_len(dxfer_len: u32) -> int {
    if dxfer_len < 64 { dxfer_len as int } else { 64 }
}

/// The unlock reply: the signature at bytes 0..4 and the marker at 12..16
/// when there is room for both, zeros elsewhere.
pub open spec fn unlock_response(n: int, sig: Seq<u8>, marker: Seq<u8>) -> Seq<u8> {
    Seq::new(
        n as nat,
        |i: int|
            if n >= 16 && i < 4 {
                sig[i]
            } else if n >= 16 && 12 <= i < 16 {
                marker[i - 12]
            } else {
                0u8
            },
    )
}

/// 0x3C READ BUFFER: the unlock handshake, mode 2 (data from the profile),
/// mode 3 (descriptor), mode 6 (empty GOOD); other modes are ILLEGAL REQUEST.
pub open spec fn read_buffer_reply(h: SgIoHdr, p: LoadedProfile, u: UnlockSupport) -> Reply {
    let mode = h.spec_cdb(1) & 0x1F;
    let buf_id = h.spec_cdb(2);
    if unlock_claims(u, mode, buf_id) {
        Reply::Data(unlock_response(unlock_len(h.dxfer_len), u.signature@, u.marker@))
    } else if mode == 2 {
        match first_read_buf(p.read_bufs@, buf_id) {
            Some(d) => Reply::Data(d),
            None => invalid_field(),
        }
    } else if mode == 3 {
        Reply::Data(zero_bytes(4))
    } else if mode == 6 {
        Reply::Data(Seq::empty())
    } else {
        invalid_field()
    }
}

/// The Data Length field of a GET CONFIGURATION header for a body of `n`
/// bytes, saturated at `u32::MAX`.
pub open spec fn config_data_len(n: int) -> u32 {
    if n + 4 <= u32::MAX { (n + 4) as u32 } else { u32::MAX }
}

/// The 8-byte GET CONFIGURATION header.
pub open spec fn config_header(data_len: u32, current_profile: u16) -> Seq<u8> {
    be32(data_len) + seq![0u8, 0u8] + be16(current_profile)
}

/// Whether a feature descriptor is listed for a request: its code is at
/// least `feat`, and for RT=1 it is current (a descriptor of 3 or more bytes
/// with bit 0 of byte 2 clear is not).
pub open spec fn feature_listed(f: (u16, Vec<u8>), feat: u16, rt: u8) -> bool {
    f.0 >= feat && !(rt == 1 && f.1@.len() >= 3 && f.1@[2] & 0x01 == 0)
}

/// The concatenated descriptors listed for RT=0 / RT=1, in profile order.
pub open spec fn config_body(fs: Seq<(u16, Vec<u8>)>, feat: u16, rt: u8) -> Seq<u8>
    decreases fs.len(),
{
    if fs.len() == 0 {
        Seq::empty()
    } else if feature_listed(fs[0], feat, rt) {
        fs[0].1@ + config_body(fs.drop_first(), feat, rt)
    } else {
        config_body(fs.drop_first(), feat, rt)
    }
}

/// 0x46 GET CONFIGURATION.
pub open spec fn get_configuration_reply(h: SgIoHdr, p: LoadedProfile) -> Reply {
    let rt = h.spec_cdb(1) & 0x03;
    let feat = cdb_u16(h, 2);
    if rt == 2 {
        match first_feature(p.features@, feat) {
            Some(d) => Reply::Data(
                config_header(config_data_len(d.len() as int), p.current_profile) + d,
            ),
            None => Reply::Data(config_header(4, p.current_profile)),
        }
    } else {
        let body = config_body(p.features@, feat, rt);
        Reply::Data(config_header(config_data_len(body.len() as int), p.current_profile) + body)
    }
}

/// The 2048 bytes a disc supplies for `lba`, if it captured them.
pub open spec fn disc_sector(d: DiscProfile, lba: int) -> Option<Seq<u8>> {
    if d.sector_map@.len() > 0 {
        if lba > u32::MAX {
            None
        } else {
            match sector_offset(d.sector_map@, lba) {
                Some(off) => if off + 2048 <= d.sectors@.len() {
                    Some(d.sectors@.subrange(off, off + 2048))
                } else {
                    None
                },
                None => None,
            }
        }
    } else if d.sectors@.len() > 0 {
        if lba < d.sectors@.len() / 2048 {
            Some(d.sectors@.subrange(lba * 2048, lba * 2048 + 2048))
        } else {
            None
        }
    } else if d.sector_data@.len() >= 2048 {
        Some(d.sector_data@.take(2048))
    } else {
        None
    }
}

/// A single-pattern fixture shorter than one sector: a truncated capture.
pub open spec fn short_pattern(d: DiscProfile) -> bool {
    d.sector_map@.len() == 0 && d.sectors@.len() == 0 && 0 < d.sector_data@.len() < 2048
}

/// Bytes a read transfers: `count` sectors, at most the host's length.
pub open spec fn read_len(count: u32, dxfer_len: u32) -> int {
    if count as int * 2048 < dxfer_len { count as int * 2048 } else { dxfer_len as int }
}

/// The first `n` sectors from `lba` on, concatenated.
pub open spec fn sectors_from(d: DiscProfile, lba: int, n: int) -> Seq<u8>
    decreases n,
{
    if n <= 0 {
        Seq::empty()
    } else {
        sectors_from(d, lba, n - 1) + disc_sector(d, lba + n - 1).unwrap()
    }
}

/// READ(10) / READ(12) of `count` sectors from `lba`: the whole sectors the
/// transfer holds, then zeros up to the transfer length. A read any of whose
/// sectors was not captured fails as a whole with MEDIUM ERROR.
pub open spec fn read_reply(p: LoadedProfile, lba: u32, count: u32, dxfer_len: u32) -> Reply {
    match p.disc {
        None => not_ready(),
        Some(d) => {
            let total = read_len(count, dxfer_len);
            let n = total / 2048;
            if short_pattern(d) || exists|i: int| 0 <= i < n && #[trigger] disc_sector(d, lba + i) is None {
                unrecovered_read()
            } else {
                Reply::Data(sectors_from(d, lba as int, n) + zero_bytes(total - n * 2048))
            }
        },
    }
}

/// What one request gets, and the state before the sense of a CHECK
/// CONDITION is latched.
pub open spec fn scsi_outcome(h: SgIoHdr, p: LoadedProfile, u: UnlockSupport, st: ScsiState) -> (
    Reply,
    ScsiState,
) {
    let op = h.spec_cdb(0);
    if op != 0x12 && op != 0x03 && st.media_changed {
        (media_changed_attention(), ScsiState { media_changed: false, ..st })
    } else if op == 0x00 {
        test_unit_ready_outcome(p, st)
    } else if op == 0x03 {
        request_sense_outcome(h, st)
    } else if op == 0x12 {
        (inquiry_reply(h, p), st)
    } else if op == 0x1B || op == 0x1E || op == 0x3B || op == 0xA3 || op == 0xBB {
        (Reply::Good, st)
    } else if op == 0x25 {
        (read_capacity_reply(p), st)
    } else if op == 0x28 {
        (read_reply(p, cdb_u32(h, 2), cdb_u16(h, 7) as u32, h.dxfer_len), st)
    } else if op == 0xA8 {
        (read_reply(p, cdb_u32(h, 2), cdb_u32(h, 6), h.dxfer_len), st)
    } else if op == 0x3C {
        (read_buffer_reply(h, p, u), st)
    } else if op == 0x43 {
        (read_toc_reply(p), st)
    } else if op == 0x46 {
        (get_configuration_reply(h, p), st)
    } else if op == 0x4A {
        get_event_outcome(h, p, st)
    } else if op == 0x51 {
        (read_disc_info_reply(p), st)
    } else if op == 0x5A {
        (mode_sense_reply(h, p), st)
    } else if op == 0xA4 {
        (report_key_reply(h, p), st)
    } else if op == 0xAD {
        (read_disc_structure_reply(h, p), st)
    } else {
        (invalid_opcode(), st)
    }
}

// ---------------------------------------------------------------------------
// Handlers
// ---------------------------------------------------------------------------

fn cdb_be16(hdr: &SgIoHdr, i: usize) -> (v: u16)
    requires
        hdr.wf(),
        i < usize::MAX,
    ensures
        v == cdb_u16(*hdr, i as int),
{
    hdr.cdb(i) as u16 * 256 + hdr.cdb(i + 1) as u16
}

fn cdb_be32(hdr: &SgIoHdr, i: usize) -> (v: u32)
    requires
        hdr.wf(),
        i + 3 < usize::MAX,
    ensures
        v == cdb_u32(*hdr, i as int),
{
    hdr.cdb(i) as u32 * 16777216 + hdr.cdb(i + 1) as u32 * 65536 + hdr.cdb(i + 2) as u32 * 256
        + hdr.cdb(i + 3) as u32
}

// 0x00 — TEST UNIT READY (SPC-4 §6.33)
fn cmd_test_unit_ready(profile: &LoadedProfile, st: &mut ScsiState) -> (a: Answer)
    ensures
        (a@, *final(st)) == test_unit_ready_outcome(*profile, *old(st)),
{
    if !profile.has_disc() {
        Answer::Check(0x02, 0x3A, 0x00)
    } else {
        st.last_sense = (0, 0, 0);
        Answer::Good
    }
}

// 0x03 — REQUEST SENSE (SPC-4 §6.27): read-and-clear.
fn cmd_request_sense(hdr: &SgIoHdr, st: &mut ScsiState) -> (a: Answer)
    requires
        hdr.wf(),
    ensures
        (a@, *final(st)) == request_sense_outcome(*hdr, *old(st)),
{
    let alloc = hdr.cdb(4);
    let len: usize = if alloc < 18 {
        alloc as usize
    } else {
        18
    };
    let (key, asc, ascq) = if st.media_changed {
        st.media_changed = false;
        (0x06u8, 0x28u8, 0x00u8)
    } else {
        let s = st.last_sense;
        st.last_sense = (0, 0, 0);
        s
    };
    let mut sense: Vec<u8> = Vec::new();
    let mut i: usize = 0;
    while i < len
        invariant
            i <= len <= 18,
            sense@ == sense_data(key, asc, ascq).take(i as int),
        decreases len - i,
    {
        let v: u8 = if i == 0 {
            0x70
        } else if i == 2 {
            key
        } else if i == 7 {
            10
        } else if i == 12 {
            asc
        } else if i == 13 {
            ascq
        } else {
            0
        };
        sense.push(v);
        i = i + 1;
        assert(sense@ =~= sense_data(key, asc, ascq).take(i as int));
    }
    Answer::Data(sense)
}

/// The unit serial number bytes (VPD page 0x80).
fn unit_serial_bytes(profile: &LoadedProfile) -> (v: Vec<u8>)
    ensures
        v@ == unit_serial(*profile),
{
    let mut v: Vec<u8> = Vec::new();
    match profile.find_feature(0x0108) {
        Some(f) => {
            if f.len() > 4 {
                let end: usize = if f.len() - 4 <= 255 {
                    f.len()
                } else {
                    4 + 255
                };
                push_all(&mut v, vstd::slice::slice_subrange(f, 4, end));
                assert(v@ =~= unit_serial(*profile));
            }
        },
        None => {},
    }
    v
}

// 0x12 — INQUIRY (SPC-4 §6.4)
fn cmd_inquiry(hdr: &SgIoHdr, profile: &LoadedProfile) -> (a: Answer)
    requires
        hdr.wf(),
    ensures
        a@ == inquiry_reply(*hdr, *profile),
{
    let evpd = hdr.cdb(1) & 0x01;
    let page_code = hdr.cdb(2);
    if evpd == 0 {
        Answer::Data(bytes_of(profile.inquiry.as_slice()))
    } else if page_code == 0x00 {
        let v = vec![0x05u8, 0x00, 0x00, 0x02, 0x00, 0x80];
        assert(v@ =~= seq![0x05u8, 0x00, 0x00, 0x02, 0x00, 0x80]);
        Answer::Data(v)
    } else if page_code == 0x80 {
        let serial = unit_serial_bytes(profile);
        let mut v = vec![0x05u8, 0x80, 0x00, serial.len() as u8];
        push_all(&mut v, serial.as_slice());
        assert(v@ =~= seq![0x05u8, 0x80, 0x00, serial@.len() as u8] + serial@);
        Answer::Data(v)
    } else {
        Answer::Check(0x05, 0x24, 0x00)
    }
}

// 0x25 — READ CAPACITY (SBC-3 §5.16)
fn cmd_read_capacity(profile: &LoadedProfile) -> (a: Answer)
    ensures
        a@ == read_capacity_reply(*profile),
{
    match &profile.disc {
        Some(disc) => {
            if disc.capacity.len() > 0 {
                Answer::Data(bytes_of(disc.capacity.as_slice()))
            } else {
                let mut v: Vec<u8> = Vec::new();
                push_be32(&mut v, 12219391);
                push_be32(&mut v, SECTOR_SIZE as u32);
                assert(v@ =~= default_capacity());
                Answer::Data(v)
            }
        },
        None => Answer::Check(0x02, 0x3A, 0x00),
    }
}

// 0x43 — READ TOC/PMA/ATIP (MMC-6 §6.26)
fn cmd_read_toc(profile: &LoadedProfile) -> (a: Answer)
    ensures
        a@ == read_toc_reply(*profile),
{
    match &profile.disc {
        Some(disc) => {
            if disc.toc.len() > 0 {
                Answer::Data(bytes_of(disc.toc.as_slice()))
            } else {
                let v = vec![0x00u8, 0x0A, 0x01, 0x01, 0x00, 0x14, 0x01, 0x00, 0x00, 0x00, 0x00, 0x00];
                assert(v@ =~= default_toc());
                Answer::Data(v)
            }
        },
        None => Answer::Check(0x02, 0x3A, 0x00),
    }
}

// 0x51 — READ DISC INFORMATION (MMC-6 §6.22)
fn cmd_read_disc_info(profile: &LoadedProfile) -> (a: Answer)
    ensures
        a@ == read_disc_info_reply(*profile),
{
    match &profile.disc {
        Some(disc) => {
            if disc.disc_info.len() > 0 {
                Answer::Data(bytes_of(disc.disc_info.as_slice()))
            } else {
                let mut v = vec![0x00u8, 0x20, 0x0E, 0x01, 0x01, 0x01, 0x01, 0x20];
                push_zeros(&mut v, 26);
                assert(v@ =~= default_disc_info());
                Answer::Data(v)
            }
        },
        None => Answer::Check(0x02, 0x3A, 0x00),
    }
}

// 0x5A — MODE SENSE(10) (SPC-4 §6.11). Only current values (PC=0) are
// modelled; other page controls get the current values too.
fn cmd_mode_sense(hdr: &SgIoHdr, profile: &LoadedProfile) -> (a: Answer)
    requires
        hdr.wf(),
    ensures
        a@ == mode_sense_reply(*hdr, *profile),
{
    let page = hdr.cdb(2) & 0x3F;
    if page == 0x2A {
        if profile.mode_2a.len() > 0 {
            Answer::Data(bytes_of(profile.mode_2a.as_slice()))
        } else {
            let mut v = vec![0x00u8, 0x1A, 0, 0, 0, 0, 0, 0, 0x2A, 0x12, 0x3F, 0x37];
            push_zeros(&mut v, 16);
            assert(v@ =~= default_mode_2a());
            Answer::Data(v)
        }
    } else if page == 0x3F {
        Answer::Data(bytes_of(profile.mode_2a.as_slice()))
    } else {
        Answer::Check(0x05, 0x24, 0x00)
    }
}

// 0xA4 — REPORT KEY (MMC-6 §6.25): only the RPC state.
fn cmd_report_key(hdr: &SgIoHdr, profile: &LoadedProfile) -> (a: Answer)
    requires
        hdr.wf(),
    ensures
        a@ == report_key_reply(*hdr, *profile),
{
    let key_class = hdr.cdb(7);
    let key_format = hdr.cdb(10) & 0x3F;
    if key_class == 0x08 && key_format == 0x08 {
        if profile.rpc_state.len() > 0 {
            Answer::Data(bytes_of(profile.rpc_state.as_slice()))
        } else {
            let v = vec![0x00u8, 0x06, 0x00, 0x00, 0x25, 0xFF, 0x01, 0x00];
            assert(v@ =~= default_rpc_state());
            Answer::Data(v)
        }
    } else {
        Answer::Check(0x05, 0x24, 0x00)
    }
}

// 0xAD — READ DISC STRUCTURE (MMC-6 §6.23)
fn cmd_read_disc_structure(hdr: &SgIoHdr, profile: &LoadedProfile) -> (a: Answer)
    requires
        hdr.wf(),
    ensures
        a@ == read_disc_structure_reply(*hdr, *profile),
{
    match &profile.disc {
        Some(disc) => {
            let format = hdr.cdb(7);
            match disc.disc_structures.get(&format) {
                Some(data) => Answer::Data(bytes_of(data.as_slice())),
                None => {
                    let v = vec![0x00u8, 0x02, 0x00, 0x00];
                    assert(v@ =~= seq![0x00u8, 0x02, 0x00, 0x00]);
                    Answer::Data(v)
                },
            }
        },
        None => Answer::Check(0x02, 0x3A, 0x00),
    }
}

// 0x4A — GET EVENT STATUS NOTIFICATION (MMC-6 §6.5), polled mode.
fn cmd_get_event_status(hdr: &SgIoHdr, profile: &LoadedProfile, st: &mut ScsiState) -> (a: Answer)
    requires
        hdr.wf(),
    ensures
        (a@, *final(st)) == get_event_outcome(*hdr, *profile, *old(st)),
{
    let polled = hdr.cdb(1) & 0x01;
    let class_req = hdr.cdb(4);
    if polled == 0 {
        return Answer::Check(0x05, 0x24, 0x00);
    }
    if class_req & 0x10 != 0 {
        if profile.has_disc() {
            let event: u8 = if st.new_media_event {
                0x02
            } else {
                0x00
            };
            st.new_media_event = false;
            let v = vec![0x00u8, 0x06, 0x04, 0x10, event, 0x02, 0x00, 0x00];
            assert(v@ =~= seq![0x00u8, 0x06, 0x04, 0x10, event, 0x02, 0x00, 0x00]);
            Answer::Data(v)
        } else {
            let v = vec![0x00u8, 0x06, 0x04, 0x10, 0x00, 0x00, 0x00, 0x00];
            assert(v@ =~= seq![0x00u8, 0x06, 0x04, 0x10, 0x00, 0x00, 0x00, 0x00]);
            Answer::Data(v)
        }
    } else {
        let v = vec![0x00u8, 0x02, 0x00, 0x10];
        assert(v@ =~= seq![0x00u8, 0x02, 0x00, 0x10]);
        Answer::Data(v)
    }
}

/// Allocation size for the READ BUFFER unlock reply: the host's transfer
/// length, clamped to 64 bytes.
pub fn unlock_resp_len(dxfer_len: u32) -> (n: usize)
    ensures
        n as int == unlock_len(dxfer_len),
{
    if dxfer_len < 64 {
        dxfer_len as usize
    } else {
        64
    }
}

fn unlock_claimed(unlock: &UnlockSupport, mode: u8, buf_id: u8) -> (b: bool)
    ensures
        b == unlock_claims(*unlock, mode, buf_id),
{
    let mut i: usize = 0;
    while i < unlock.read_buffer_cdbs.len()
        invariant
            i <= unlock.read_buffer_cdbs@.len(),
            forall|j: int| 0 <= j < i ==> unlock.read_buffer_cdbs@[j] != (mode, buf_id),
        decreases unlock.read_buffer_cdbs@.len() - i,
    {
        let (m, b) = unlock.read_buffer_cdbs[i];
        if m == mode && b == buf_id {
            return true;
        }
        i = i + 1;
    }
    false
}

/// The unlock reply for a transfer of `n` bytes.
fn build_unlock_response(n: usize, signature: &[u8; 4], marker: &[u8; 4]) -> (v: Vec<u8>)
    ensures
        v@ == unlock_response(n as int, signature@, marker@),
{
    let mut v: Vec<u8> = Vec::new();
    let mut i: usize = 0;
    while i < n
        invariant
            i <= n,
            v@ == unlock_response(n as int, signature@, marker@).take(i as int),
        decreases n - i,
    {
        let b: u8 = if n >= 16 && i < 4 {
            signature[i]
        } else if n >= 16 && 12 <= i && i < 16 {
            marker[i - 12]
        } else {
            0
        };
        v.push(b);
        i = i + 1;
        assert(v@ =~= unlock_response(n as int, signature@, marker@).take(i as int));
    }
    assert(v@ =~= unlock_response(n as int, signature@, marker@));
    v
}

// 0x3C — READ BUFFER (SPC-4 §6.7)
fn cmd_read_buffer(hdr: &SgIoHdr, profile: &LoadedProfile, unlock: &UnlockSupport) -> (a: Answer)
    requires
        hdr.wf(),
    ensures
        a@ == read_buffer_reply(*hdr, *profile, *unlock),
{
    let mode = hdr.cdb(1) & 0x1F;
    let buf_id = hdr.cdb(2);
    if unlock_claimed(unlock, mode, buf_id) {
        let n = unlock_resp_len(hdr.dxfer_len);
        return Answer::Data(build_unlock_response(n, &unlock.signature, &unlock.marker));
    }
    if mode == 2 {
        match profile.find_read_buf(buf_id) {
            Some(data) => Answer::Data(bytes_of(data)),
            None => Answer::Check(0x05, 0x24, 0x00),
        }
    } else if mode == 3 {
        let mut v: Vec<u8> = Vec::new();
        push_zeros(&mut v, 4);
        assert(v@ =~= zero_bytes(4));
        Answer::Data(v)
    } else if mode == 6 {
        let v: Vec<u8> = Vec::new();
        Answer::Data(v)
    } else {
        Answer::Check(0x05, 0x24, 0x00)
    }
}

/// GET CONFIGURATION Data Length for a body of `n` bytes.
fn config_len_field(n: usize) -> (v: u32)
    ensures
        v == config_data_len(n as int),
{
    if n <= (u32::MAX - 4) as usize {
        (n + 4) as u32
    } else {
        u32::MAX
    }
}

// 0x46 — GET CONFIGURATION (MMC-6 §6.6). Descriptors come out in profile
// order, which the loaders keep ascending by feature code.
fn cmd_get_configuration(hdr: &SgIoHdr, profile: &LoadedProfile) -> (a: Answer)
    requires
        hdr.wf(),
    ensures
        a@ == get_configuration_reply(*hdr, *profile),
{
    let rt = hdr.cdb(1) & 0x03;
    let feat = cdb_be16(hdr, 2);
    let mut resp: Vec<u8> = Vec::new();
    if rt == 2 {
        match profile.find_feature(feat) {
            Some(data) => {
                push_be32(&mut resp, config_len_field(data.len()));
                push_zeros(&mut resp, 2);
                push_be16(&mut resp, profile.current_profile);
                push_all(&mut resp, data);
                assert(resp@ =~= config_header(config_data_len(data@.len() as int), profile.current_profile) + data@);
            },
            None => {
                push_be32(&mut resp, 4);
                push_zeros(&mut resp, 2);
                push_be16(&mut resp, profile.current_profile);
                assert(resp@ =~= config_header(4, profile.current_profile));
            },
        }
        return Answer::Data(resp);
    }
    let ghost fs = profile.features@;
    let mut body: Vec<u8> = Vec::new();
    let mut i: usize = 0;
    assert(fs.skip(0) =~= fs);
    while i < profile.features.len()
        invariant
            fs == profile.features@,
            i <= fs.len(),
            body@ + config_body(fs.skip(i as int), feat, rt) == config_body(fs, feat, rt),
        decreases fs.len() - i,
    {
        let ghost rest = fs.skip(i as int);
        assert(rest.drop_first() =~= fs.skip(i + 1));
        let code = profile.features[i].0;
        let data = &profile.features[i].1;
        let skip_non_current = rt == 1 && data.len() >= 3 && (data[2] & 0x01) == 0;
        if code >= feat && !skip_non_current {
            push_all(&mut body, data.as_slice());
            assert(body@ + config_body(fs.skip(i + 1), feat, rt) =~= config_body(fs, feat, rt));
        }
        i = i + 1;
    }
    assert(fs.skip(fs.len() as int) =~= Seq::<(u16, Vec<u8>)>::empty());
    assert(body@ =~= config_body(fs, feat, rt));
    push_be32(&mut resp, config_len_field(body.len()));
    push_zeros(&mut resp, 2);
    push_be16(&mut resp, profile.current_profile);
    push_all(&mut resp, body.as_slice());
    assert(resp@ =~= config_header(config_data_len(body@.len() as int), profile.current_profile) + body@);
    Answer::Data(resp)
}

/// The 2048 bytes the disc supplies for `lba`, if it captured them.
fn sector_source(disc: &DiscProfile, lba: u64) -> (r: Option<&[u8]>)
    requires
        map_wf(disc.sector_map@),
    ensures
        opt_bytes(r) == disc_sector(*disc, lba as int),
{
    if disc.sector_map.len() > 0 {
        if lba > u32::MAX as u64 {
            return None;
        }
        match lookup_sector(disc.sector_map.as_slice(), lba as u32) {
            Some(off) => {
                if off <= disc.sectors.len() && SECTOR_SIZE <= disc.sectors.len() - off {
                    Some(vstd::slice::slice_subrange(disc.sectors.as_slice(), off, off + SECTOR_SIZE))
                } else {
                    None
                }
            },
            None => None,
        }
    } else if disc.sectors.len() > 0 {
        let max_sectors = disc.sectors.len() / SECTOR_SIZE;
        if lba < max_sectors as u64 {
            let start = lba as usize * SECTOR_SIZE;
            Some(vstd::slice::slice_subrange(disc.sectors.as_slice(), start, start + SECTOR_SIZE))
        } else {
            None
        }
    } else if disc.sector_data.len() >= SECTOR_SIZE {
        Some(vstd::slice::slice_subrange(disc.sector_data.as_slice(), 0, SECTOR_SIZE))
    } else {
        None
    }
}

/// The answer to READ(10) / READ(12) (SBC-3 §5.8, §5.9) of `count` sectors
/// from `lba` into a buffer of `hdr.dxfer_len` bytes. A sector the capture
/// does not hold fails the whole read with MEDIUM ERROR rather than being
/// served as zeros.
pub fn read_sectors(hdr: &SgIoHdr, profile: &LoadedProfile, lba: u32, count: u32) -> (a: Answer)
    requires
        profile.wf(),
    ensures
        a@ == read_reply(*profile, lba, count, hdr.dxfer_len),
{
    match &profile.disc {
        None => Answer::Check(0x02, 0x3A, 0x00),
        Some(disc) => {
            let total: usize = if (count as u64) * 2048 < hdr.dxfer_len as u64 {
                count as usize * SECTOR_SIZE
            } else {
                hdr.dxfer_len as usize
            };
            let out_sectors = total / SECTOR_SIZE;
            if disc.sector_map.len() == 0 && disc.sectors.len() == 0 && disc.sector_data.len() > 0
                && disc.sector_data.len() < SECTOR_SIZE {
                return Answer::Check(0x03, 0x11, 0x00);
            }
            let mut data: Vec<u8> = Vec::new();
            let mut i: usize = 0;
            while i < out_sectors
                invariant
                    profile.wf(),
                    profile.disc == Some(*disc),
                    i <= out_sectors,
                    out_sectors == total / 2048,
                    total == read_len(count, hdr.dxfer_len),
                    data@ == sectors_from(*disc, lba as int, i as int),
                    forall|k: int| 0 <= k < i ==> #[trigger] disc_sector(*disc, lba + k) is Some,
                decreases out_sectors - i,
            {
                match sector_source(disc, lba as u64 + i as u64) {
                    Some(src) => {
                        push_all(&mut data, src);
                    },
                    None => {
                        assert(disc_sector(*disc, lba + i as int) is None);
                        assert(read_len(count, hdr.dxfer_len) == total);
                        assert(exists|k: int| 0 <= k < total / 2048 && #[trigger] disc_sector(*disc, lba + k) is None);
                        return Answer::Check(0x03, 0x11, 0x00);
                    },
                }
                i = i + 1;
            }
            push_zeros(&mut data, total - out_sectors * SECTOR_SIZE);
            Answer::Data(data)
        },
    }
}

/// Answer one SCSI request from the loaded profile.
///
/// A pending media change is reported first, as UNIT ATTENTION, to any
/// command but INQUIRY and REQUEST SENSE; otherwise the command is answered
/// as `scsi_outcome` states, and a CHECK CONDITION latches its sense for
/// REQUEST SENSE.
pub fn handle_scsi(
    hdr: &mut SgIoHdr,
    profile: &LoadedProfile,
    state: &mut ScsiState,
    unlock: &UnlockSupport,
)
    requires
        old(hdr).wf(),
        profile.wf(),
    ensures
        final(hdr).wf(),
        responded(
            old(hdr).cleared(),
            *final(hdr),
            scsi_outcome(*old(hdr), *profile, *unlock, *old(state)).0,
        ),
        *final(state) == latched(
            scsi_outcome(*old(hdr), *profile, *unlock, *old(state)).1,
            scsi_outcome(*old(hdr), *profile, *unlock, *old(state)).0,
        ),
{
    hdr.clear_status();
    let op = hdr.opcode();
    if op != 0x12 && op != 0x03 && state.media_changed {
        state.media_changed = false;
        deliver(hdr, state, Answer::Check(0x06, 0x28, 0x00));
        return;
    }
    let answer = if op == 0x00 {
        cmd_test_unit_ready(profile, state)
    } else if op == 0x03 {
        cmd_request_sense(hdr, state)
    } else if op == 0x12 {
        cmd_inquiry(hdr, profile)
    } else if op == 0x1B || op == 0x1E || op == 0x3B || op == 0xA3 || op == 0xBB {
        // START STOP UNIT, PREVENT ALLOW MEDIUM REMOVAL, WRITE BUFFER,
        // SEND KEY and SET CD SPEED are acknowledged without effect.
        Answer::Good
    } else if op == 0x25 {
        cmd_read_capacity(profile)
    } else if op == 0x28 {
        let lba = cdb_be32(hdr, 2);
        let count = cdb_be16(hdr, 7);
        read_sectors(hdr, profile, lba, count as u32)
    } else if op == 0xA8 {
        let lba = cdb_be32(hdr, 2);
        let count = cdb_be32(hdr, 6);
        read_sectors(hdr, profile, lba, count)
    } else if op == 0x3C {
        cmd_read_buffer(hdr, profile, unlock)
    } else if op == 0x43 {
        cmd_read_toc(profile)
    } else if op == 0x46 {
        cmd_get_configuration(hdr, profile)
    } else if op == 0x4A {
        cmd_get_event_status(hdr, profile, state)
    } else if op == 0x51 {
        cmd_read_disc_info(profile)
    } else if op == 0x5A {
        cmd_mode_sense(hdr, profile)
    } else if op == 0xA4 {
        cmd_report_key(hdr, profile)
    } else if op == 0xAD {
        cmd_read_disc_structure(hdr, profile)
    } else {
        Answer::Check(0x05, 0x20, 0x00)
    };
    deliver(hdr, state, answer);
}

} // verus!
