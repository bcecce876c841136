//! What holds across SCSI commands: how a media change is reported, how
//! REQUEST SENSE reads the sense a failed command latched, and how the
//! NewMedia event is reported once per disc change.

use crate::profile::LoadedProfile;
use crate::scsi::{
    cdb_u16, cdb_u32, disc_sector, read_len, read_reply, sectors_from, short_pattern, unrecovered_read,
    inquiry_reply, latched, media_changed_attention, responded, scsi_outcome,
    sense_data, sense_len, Reply, ScsiState, UnlockSupport,
};
use crate::sg::SgIoHdr;
use vstd::prelude::*;

verus! {

/// The reply one request gets (see `handle_scsi`).
pub open spec fn reply_to(h: SgIoHdr, p: LoadedProfile, u: UnlockSupport, st: ScsiState) -> Reply {
    scsi_outcome(h, p, u, st).0
}

/// The emulator state after one request (see `handle_scsi`).
pub open spec fn state_after(h: SgIoHdr, p: LoadedProfile, u: UnlockSupport, st: ScsiState) -> ScsiState {
    latched(scsi_outcome(h, p, u, st).1, scsi_outcome(h, p, u, st).0)
}

/// INQUIRY is answered as usual while a media change is pending, and leaves
/// the change pending.
pub proof fn law_inquiry_keeps_unit_attention(
    h: SgIoHdr,
    p: LoadedProfile,
    u: UnlockSupport,
    st: ScsiState,
)
    requires
        h.spec_cdb(0) == 0x12,
    ensures
        reply_to(h, p, u, st) == inquiry_reply(h, p),
        state_after(h, p, u, st).media_changed == st.media_changed,
{
}

/// A pending media change is reported as UNIT ATTENTION to the first command
/// other than INQUIRY and REQUEST SENSE, and is then no longer pending.
pub proof fn law_unit_attention_reported_once(
    h: SgIoHdr,
    p: LoadedProfile,
    u: UnlockSupport,
    st: ScsiState,
)
    requires
        st.media_changed,
        h.spec_cdb(0) != 0x12,
        h.spec_cdb(0) != 0x03,
    ensures
        reply_to(h, p, u, st) == media_changed_attention(),
        !state_after(h, p, u, st).media_changed,
        state_after(h, p, u, st).last_sense == (0x06u8, 0x28u8, 0x00u8),
{
}

/// No command raises a media change; only the control socket does.
pub proof fn law_commands_never_raise_media_change(
    h: SgIoHdr,
    p: LoadedProfile,
    u: UnlockSupport,
    st: ScsiState,
)
    requires
        !st.media_changed,
    ensures
        !state_after(h, p, u, st).media_changed,
{
}

/// REQUEST SENSE reports the latched sense, then clears it.
pub proof fn law_request_sense_reads_and_clears(
    h: SgIoHdr,
    p: LoadedProfile,
    u: UnlockSupport,
    st: ScsiState,
)
    requires
        h.spec_cdb(0) == 0x03,
        !st.media_changed,
    ensures
        reply_to(h, p, u, st) == Reply::Data(
            sense_data(st.last_sense.0, st.last_sense.1, st.last_sense.2).take(
                sense_len(h.spec_cdb(4)),
            ),
        ),
        state_after(h, p, u, st).last_sense == (0u8, 0u8, 0u8),
        state_after(h, p, u, st).new_media_event == st.new_media_event,
{
}

/// REQUEST SENSE reports a pending media change as UNIT ATTENTION sense, and
/// consumes it.
pub proof fn law_request_sense_reports_media_change(
    h: SgIoHdr,
    p: LoadedProfile,
    u: UnlockSupport,
    st: ScsiState,
)
    requires
        h.spec_cdb(0) == 0x03,
        st.media_changed,
    ensures
        reply_to(h, p, u, st) == Reply::Data(
            sense_data(0x06, 0x28, 0x00).take(sense_len(h.spec_cdb(4))),
        ),
        !state_after(h, p, u, st).media_changed,
        state_after(h, p, u, st).last_sense == st.last_sense,
{
}

/// The sense of a CHECK CONDITION is what the next REQUEST SENSE reports
/// (unless a media change arrives in between).
pub proof fn law_check_condition_reaches_request_sense(
    h1: SgIoHdr,
    h2: SgIoHdr,
    p: LoadedProfile,
    u: UnlockSupport,
    st: ScsiState,
    key: u8,
    asc: u8,
    ascq: u8,
)
    requires
        reply_to(h1, p, u, st) == Reply::Check(key, asc, ascq),
        h2.spec_cdb(0) == 0x03,
        !state_after(h1, p, u, st).media_changed,
    ensures
        reply_to(h2, p, u, state_after(h1, p, u, st)) == Reply::Data(
            sense_data(key, asc, ascq).take(sense_len(h2.spec_cdb(4))),
        ),
{
}

/// A CHECK CONDITION transfers no data: the host's data buffer and residual
/// are left as they were.
pub proof fn law_check_condition_transfers_nothing(
    before: SgIoHdr,
    after: SgIoHdr,
    key: u8,
    asc: u8,
    ascq: u8,
)
    requires
        responded(before, after, Reply::Check(key, asc, ascq)),
    ensures
        after.dxferp == before.dxferp,
        after.resid == before.resid,
        after.dxfer_len == before.dxfer_len,
{
}

/// With a disc present, a polled media-class GET EVENT STATUS NOTIFICATION
/// reports NewMedia (event code 2) exactly when the event is armed, and
/// disarms it; the next poll reports no change.
pub proof fn law_new_media_reported_once(
    h: SgIoHdr,
    h2: SgIoHdr,
    p: LoadedProfile,
    u: UnlockSupport,
    st: ScsiState,
)
    requires
        h.spec_cdb(0) == 0x4A,
        h2.spec_cdb(0) == 0x4A,
        h.spec_cdb(1) & 0x01 != 0,
        h.spec_cdb(4) & 0x10 != 0,
        h2.spec_cdb(1) & 0x01 != 0,
        h2.spec_cdb(4) & 0x10 != 0,
        !st.media_changed,
        p.disc is Some,
    ensures
        reply_to(h, p, u, st) == Reply::Data(
            seq![0x00u8, 0x06, 0x04, 0x10, if st.new_media_event { 0x02u8 } else { 0x00u8 }, 0x02, 0x00, 0x00],
        ),
        !state_after(h, p, u, st).new_media_event,
        reply_to(h2, p, u, state_after(h, p, u, st)) == Reply::Data(
            seq![0x00u8, 0x06, 0x04, 0x10, 0x00u8, 0x02, 0x00, 0x00],
        ),
{
}

/// A captured sector is 2048 bytes long.
proof fn lemma_sector_len(d: crate::profile::DiscProfile, lba: int)
    requires
        lba >= 0,
        disc_sector(d, lba) is Some,
    ensures
        disc_sector(d, lba)->0.len() == 2048,
{
    if d.sector_map@.len() > 0 {
        let m = d.sector_map@;
        let k = choose|k: int| 0 <= k < m.len() && crate::profile::range_holds(m[k], lba);
        assert(crate::profile::range_holds(m[k], lba));
    }
}

/// The sectors gathered from `lba` are the captured sectors, in order.
proof fn lemma_sectors_from(d: crate::profile::DiscProfile, lba: int, n: int)
    requires
        lba >= 0,
        n >= 0,
        forall|i: int| 0 <= i < n ==> #[trigger] disc_sector(d, lba + i) is Some,
    ensures
        sectors_from(d, lba, n).len() == n * 2048,
        forall|i: int|
            0 <= i < n ==> sectors_from(d, lba, n).subrange(i * 2048, i * 2048 + 2048)
                == (#[trigger] disc_sector(d, lba + i))->0,
    decreases n,
{
    if n > 0 {
        lemma_sectors_from(d, lba, n - 1);
        assert(disc_sector(d, lba + (n - 1)) is Some);
        lemma_sector_len(d, lba + n - 1);
        let a = sectors_from(d, lba, n - 1);
        let b = disc_sector(d, lba + n - 1)->0;
        assert(sectors_from(d, lba, n) == a + b);
        assert forall|i: int| 0 <= i < n implies (a + b).subrange(i * 2048, i * 2048 + 2048)
            == (#[trigger] disc_sector(d, lba + i))->0 by {
            if i < n - 1 {
                assert((a + b).subrange(i * 2048, i * 2048 + 2048) =~= a.subrange(i * 2048, i * 2048 + 2048));
            } else {
                assert((a + b).subrange(i * 2048, i * 2048 + 2048) =~= b);
            }
        }
    }
}

/// A READ with a disc either serves, when every sector the transfer holds
/// was captured (and the disc is not a truncated single-sector pattern),
/// exactly the transfer length: sector `i` of the data is the capture of
/// LBA `lba + i`, and the part past the whole sectors is zero; or fails with
/// MEDIUM ERROR / UNRECOVERED READ ERROR.
pub proof fn law_read_serves_captured_sectors(p: LoadedProfile, lba: u32, count: u32, dxfer_len: u32)
    requires
        p.disc is Some,
    ensures
        ({
            let d = p.disc->0;
            let total = read_len(count, dxfer_len);
            let n = total / 2048;
            let all = !short_pattern(d) && forall|i: int| 0 <= i < n ==> #[trigger] disc_sector(d, lba + i) is Some;
            &&& !all ==> read_reply(p, lba, count, dxfer_len) == unrecovered_read()
            &&& all ==> (read_reply(p, lba, count, dxfer_len) matches Reply::Data(data) && {
                &&& data.len() == total
                &&& forall|i: int| 0 <= i < n ==> data.subrange(i * 2048, i * 2048 + 2048)
                    == (#[trigger] disc_sector(d, lba + i))->0
                &&& forall|j: int| n * 2048 <= j < total ==> data[j] == 0
            })
        }),
{
    let d = p.disc->0;
    let total = read_len(count, dxfer_len);
    let n = total / 2048;
    if !short_pattern(d) && forall|i: int| 0 <= i < n ==> #[trigger] disc_sector(d, lba + i) is Some {
        lemma_sectors_from(d, lba as int, n);
        let a = sectors_from(d, lba as int, n);
        let data = a + crate::scsi::zero_bytes(total - n * 2048);
        assert forall|i: int| 0 <= i < n implies data.subrange(i * 2048, i * 2048 + 2048)
            == (#[trigger] disc_sector(d, lba + i))->0 by {
            assert(data.subrange(i * 2048, i * 2048 + 2048) =~= a.subrange(i * 2048, i * 2048 + 2048));
        }
    }
}

/// READ(10) and READ(12) are answered by `read_reply`, with the LBA and the
/// count their command blocks give, whenever no media change is pending;
/// the emulator state changes only by latching the sense of a failure.
pub proof fn law_read_commands(h: SgIoHdr, p: LoadedProfile, u: UnlockSupport, st: ScsiState)
    requires
        h.spec_cdb(0) == 0x28 || h.spec_cdb(0) == 0xA8,
        !st.media_changed,
    ensures
        h.spec_cdb(0) == 0x28 ==> reply_to(h, p, u, st) == read_reply(
            p,
            cdb_u32(h, 2),
            cdb_u16(h, 7) as u32,
            h.dxfer_len,
        ),
        h.spec_cdb(0) == 0xA8 ==> reply_to(h, p, u, st) == read_reply(
            p,
            cdb_u32(h, 2),
            cdb_u32(h, 6),
            h.dxfer_len,
        ),
        state_after(h, p, u, st) == latched(st, reply_to(h, p, u, st)),
{
}

} // verus!
