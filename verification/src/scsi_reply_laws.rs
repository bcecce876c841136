//! What the drive-identification, disc-layout and media-status commands
//! answer, stated over the profile they are answered from: which captured
//! blob is served, which feature descriptors a configuration listing holds,
//! where the unit serial number comes from, and when media is reported.

use crate::profile::{first_feature, LoadedProfile};
use crate::scsi::{
    be16, be32, cdb_u16, config_body, Reply, ScsiState, UnlockSupport,
};
use crate::scsi_laws::{reply_to, state_after};
use crate::sg::SgIoHdr;
use vstd::prelude::*;

verus! {

/// Whether a GET CONFIGURATION listing of type `rt` starting at feature
/// `feat` holds the descriptor `f`: its code is `feat` or above, and for
/// RT=1 it is current (bit 0 of byte 2 set, when the descriptor has one).
pub open spec fn listing_holds(f: (u16, Vec<u8>), feat: u16, rt: u8) -> bool {
    &&& feat <= f.0
    &&& (rt == 1 && f.1@.len() >= 3 ==> f.1@[2] & 0x01 != 0)
}

/// Each feature's part of a listing: its descriptor if the listing holds it,
/// nothing otherwise.
pub open spec fn listing_parts(fs: Seq<(u16, Vec<u8>)>, feat: u16, rt: u8) -> Seq<Seq<u8>> {
    Seq::new(
        fs.len(),
        |i: int| if listing_holds(fs[i], feat, rt) { fs[i].1@ } else { Seq::<u8>::empty() },
    )
}

/// The 8-byte GET CONFIGURATION header in front of `body`: Data Length
/// (`body` plus the 4 bytes after the field, saturated), two reserved
/// bytes, then the current profile.
pub open spec fn configuration_with(body: Seq<u8>, current_profile: u16) -> Seq<u8> {
    be32(if body.len() + 4 <= u32::MAX { (body.len() + 4) as u32 } else { u32::MAX }) + seq![
        0u8,
        0u8,
    ] + be16(current_profile) + body
}

/// The configuration body is the profile's descriptors, in profile order,
/// each present exactly when the listing holds it.
proof fn lemma_config_body_lists(fs: Seq<(u16, Vec<u8>)>, feat: u16, rt: u8)
    ensures
        config_body(fs, feat, rt) == listing_parts(fs, feat, rt).flatten(),
    decreases fs.len(),
{
    if fs.len() > 0 {
        lemma_config_body_lists(fs.drop_first(), feat, rt);
        assert(listing_parts(fs, feat, rt).drop_first() =~= listing_parts(fs.drop_first(), feat, rt));
    }
}

/// The first feature with `code` is found at its first index.
proof fn lemma_first_feature_at(fs: Seq<(u16, Vec<u8>)>, code: u16, i: int)
    requires
        0 <= i < fs.len(),
        fs[i].0 == code,
        forall|j: int| 0 <= j < i ==> (#[trigger] fs[j]).0 != code,
    ensures
        first_feature(fs, code) == Some(fs[i].1@),
    decreases i,
{
    if i > 0 {
        assert(fs[0].0 != code);
        assert forall|j: int| 0 <= j < i - 1 implies (#[trigger] fs.drop_first()[j]).0 != code by {
            assert(fs.drop_first()[j] == fs[j + 1]);
        }
        lemma_first_feature_at(fs.drop_first(), code, i - 1);
    }
}

/// Without a feature of `code` nothing is found.
proof fn lemma_first_feature_absent(fs: Seq<(u16, Vec<u8>)>, code: u16)
    requires
        forall|j: int| 0 <= j < fs.len() ==> (#[trigger] fs[j]).0 != code,
    ensures
        first_feature(fs, code) is None,
    decreases fs.len(),
{
    if fs.len() > 0 {
        assert(fs[0].0 != code);
        assert forall|j: int| 0 <= j < fs.len() - 1 implies (#[trigger] fs.drop_first()[j]).0
            != code by {
            assert(fs.drop_first()[j] == fs[j + 1]);
        }
        lemma_first_feature_absent(fs.drop_first(), code);
    }
}

/// GET CONFIGURATION with RT=0 (or 3) lists, after the header, the
/// descriptor of every feature of the profile whose code is the starting
/// feature or above, in profile order; RT=1 lists those of them that are
/// current.
pub proof fn law_configuration_lists_from_starting_feature(
    h: SgIoHdr,
    p: LoadedProfile,
    u: UnlockSupport,
    st: ScsiState,
)
    requires
        h.spec_cdb(0) == 0x46,
        h.spec_cdb(1) & 0x03 != 2,
        !st.media_changed,
    ensures
        reply_to(h, p, u, st) == Reply::Data(
            configuration_with(
                listing_parts(p.features@, cdb_u16(h, 2), h.spec_cdb(1) & 0x03).flatten(),
                p.current_profile,
            ),
        ),
        state_after(h, p, u, st) == st,
{
    lemma_config_body_lists(p.features@, cdb_u16(h, 2), h.spec_cdb(1) & 0x03);
}

/// A feature whose code is exactly the starting feature is listed by RT=0:
/// its descriptor is a part of the reply's body.
pub proof fn law_configuration_includes_starting_feature(fs: Seq<(u16, Vec<u8>)>, feat: u16, i: int)
    requires
        0 <= i < fs.len(),
        fs[i].0 == feat,
    ensures
        listing_parts(fs, feat, 0)[i] == fs[i].1@,
{
}

/// GET CONFIGURATION with RT=2 answers the first descriptor whose code is
/// the requested feature, after the header.
pub proof fn law_configuration_single_feature(
    h: SgIoHdr,
    p: LoadedProfile,
    u: UnlockSupport,
    st: ScsiState,
    i: int,
)
    requires
        h.spec_cdb(0) == 0x46,
        h.spec_cdb(1) & 0x03 == 2,
        !st.media_changed,
        0 <= i < p.features@.len(),
        p.features@[i].0 == cdb_u16(h, 2),
        forall|j: int| 0 <= j < i ==> (#[trigger] p.features@[j]).0 != cdb_u16(h, 2),
    ensures
        reply_to(h, p, u, st) == Reply::Data(
            configuration_with(p.features@[i].1@, p.current_profile),
        ),
{
    lemma_first_feature_at(p.features@, cdb_u16(h, 2), i);
}

/// GET CONFIGURATION with RT=2 for a feature the profile lacks answers the
/// header alone.
pub proof fn law_configuration_single_feature_absent(
    h: SgIoHdr,
    p: LoadedProfile,
    u: UnlockSupport,
    st: ScsiState,
)
    requires
        h.spec_cdb(0) == 0x46,
        h.spec_cdb(1) & 0x03 == 2,
        !st.media_changed,
        forall|j: int| 0 <= j < p.features@.len() ==> (#[trigger] p.features@[j]).0 != cdb_u16(h, 2),
    ensures
        reply_to(h, p, u, st) == Reply::Data(configuration_with(Seq::empty(), p.current_profile)),
{
    lemma_first_feature_absent(p.features@, cdb_u16(h, 2));
    assert(configuration_with(Seq::empty(), p.current_profile) =~= be32(4) + seq![0u8, 0u8] + be16(
        p.current_profile,
    ));
}

/// The unit serial number of VPD page 0x80: the data of the first feature
/// 0x0108 from byte 4 on (after its code, version and length), at most 255
/// bytes.
pub open spec fn serial_past_header(d: Seq<u8>) -> Seq<u8> {
    if d.len() <= 4 {
        Seq::empty()
    } else if d.len() <= 259 {
        d.subrange(4, d.len() as int)
    } else {
        d.subrange(4, 259)
    }
}

/// INQUIRY of VPD page 0x80 answers the page header with the serial's
/// length, then the first feature 0x0108's data past its 4-byte descriptor
/// header.
pub proof fn law_serial_is_feature_data_past_header(
    h: SgIoHdr,
    p: LoadedProfile,
    u: UnlockSupport,
    st: ScsiState,
    i: int,
)
    requires
        h.spec_cdb(0) == 0x12,
        h.spec_cdb(1) & 0x01 != 0,
        h.spec_cdb(2) == 0x80,
        0 <= i < p.features@.len(),
        p.features@[i].0 == 0x0108,
        forall|j: int| 0 <= j < i ==> (#[trigger] p.features@[j]).0 != 0x0108,
    ensures
        reply_to(h, p, u, st) == Reply::Data(
            seq![0x05u8, 0x80, 0x00, serial_past_header(p.features@[i].1@).len() as u8]
                + serial_past_header(p.features@[i].1@),
        ),
        serial_past_header(p.features@[i].1@).len() <= 255,
        state_after(h, p, u, st).media_changed == st.media_changed,
{
    lemma_first_feature_at(p.features@, 0x0108, i);
    let d = p.features@[i].1@;
    if d.len() > 4 {
        assert(d.skip(4) =~= d.subrange(4, d.len() as int));
        if d.len() > 259 {
            assert(d.skip(4).take(255) =~= d.subrange(4, 259));
        }
    }
}

/// INQUIRY of VPD page 0x80 without a feature 0x0108 answers an empty
/// serial number.
pub proof fn law_serial_absent(h: SgIoHdr, p: LoadedProfile, u: UnlockSupport, st: ScsiState)
    requires
        h.spec_cdb(0) == 0x12,
        h.spec_cdb(1) & 0x01 != 0,
        h.spec_cdb(2) == 0x80,
        forall|j: int| 0 <= j < p.features@.len() ==> (#[trigger] p.features@[j]).0 != 0x0108,
    ensures
        reply_to(h, p, u, st) == Reply::Data(seq![0x05u8, 0x80, 0x00, 0x00]),
{
    lemma_first_feature_absent(p.features@, 0x0108);
    assert(seq![0x05u8, 0x80, 0x00, 0x00] + Seq::<u8>::empty() =~= seq![0x05u8, 0x80, 0x00, 0x00]);
}

/// INQUIRY without EVPD answers the profile's captured standard data; VPD
/// page 0x00 lists pages 0x00 and 0x80; any other page is ILLEGAL REQUEST.
pub proof fn law_inquiry_pages(h: SgIoHdr, p: LoadedProfile, u: UnlockSupport, st: ScsiState)
    requires
        h.spec_cdb(0) == 0x12,
    ensures
        h.spec_cdb(1) & 0x01 == 0 ==> reply_to(h, p, u, st) == Reply::Data(p.inquiry@),
        h.spec_cdb(1) & 0x01 != 0 && h.spec_cdb(2) == 0x00 ==> reply_to(h, p, u, st)
            == Reply::Data(seq![0x05u8, 0x00, 0x00, 0x02, 0x00, 0x80]),
        h.spec_cdb(1) & 0x01 != 0 && h.spec_cdb(2) != 0x00 && h.spec_cdb(2) != 0x80 ==> reply_to(
            h,
            p,
            u,
            st,
        ) == Reply::Check(0x05, 0x24, 0x00),
{
}

/// READ CAPACITY, READ TOC and READ DISC INFORMATION answer NOT READY
/// without a disc; with one, the disc's captured blob whenever it is not
/// empty, and a built-in default otherwise (for READ CAPACITY: last LBA
/// 12219391 of 2048-byte blocks; a one-track TOC; a 34-byte disc
/// information block).
pub proof fn law_layout_is_the_captured_disc(
    h: SgIoHdr,
    p: LoadedProfile,
    u: UnlockSupport,
    st: ScsiState,
)
    requires
        h.spec_cdb(0) == 0x25 || h.spec_cdb(0) == 0x43 || h.spec_cdb(0) == 0x51,
        !st.media_changed,
    ensures
        p.disc is None ==> reply_to(h, p, u, st) == Reply::Check(0x02, 0x3A, 0x00),
        p.disc matches Some(d) ==> ({
            let blob = if h.spec_cdb(0) == 0x25 {
                d.capacity@
            } else if h.spec_cdb(0) == 0x43 {
                d.toc@
            } else {
                d.disc_info@
            };
            blob.len() > 0 ==> reply_to(h, p, u, st) == Reply::Data(blob)
        }),
        (p.disc matches Some(d) && d.capacity@.len() == 0 && h.spec_cdb(0) == 0x25) ==> reply_to(
            h,
            p,
            u,
            st,
        ) == Reply::Data(seq![0x00u8, 0xBA, 0x73, 0xFF, 0x00, 0x00, 0x08, 0x00]),
        (p.disc matches Some(d) && d.toc@.len() == 0 && h.spec_cdb(0) == 0x43) ==> reply_to(
            h,
            p,
            u,
            st,
        ) == Reply::Data(seq![0x00u8, 0x0A, 0x01, 0x01, 0x00, 0x14, 0x01, 0x00, 0x00, 0x00, 0x00, 0x00]),
        (p.disc matches Some(d) && d.disc_info@.len() == 0 && h.spec_cdb(0) == 0x51) ==> (reply_to(
            h,
            p,
            u,
            st,
        ) matches Reply::Data(r) && r.len() == 34 && r.take(8) == seq![0x00u8, 0x20, 0x0E, 0x01, 0x01, 0x01, 0x01, 0x20]
            && forall|k: int| 8 <= k < 34 ==> r[k] == 0),
        state_after(h, p, u, st).new_media_event == st.new_media_event,
{
    assert(be32(12219391) + be32(2048) =~= seq![0x00u8, 0xBA, 0x73, 0xFF, 0x00, 0x00, 0x08, 0x00]);
    let info = seq![0x00u8, 0x20, 0x0E, 0x01, 0x01, 0x01, 0x01, 0x20] + crate::scsi::zero_bytes(26);
    assert(info.take(8) =~= seq![0x00u8, 0x20, 0x0E, 0x01, 0x01, 0x01, 0x01, 0x20]);
}

/// READ DISC STRUCTURE answers the disc's captured structure for the format
/// in CDB byte 7, an empty 4-byte header for a format it has not captured,
/// and NOT READY without a disc.
pub proof fn law_disc_structure_is_captured(
    h: SgIoHdr,
    p: LoadedProfile,
    u: UnlockSupport,
    st: ScsiState,
)
    requires
        h.spec_cdb(0) == 0xAD,
        !st.media_changed,
    ensures
        p.disc is None ==> reply_to(h, p, u, st) == Reply::Check(0x02, 0x3A, 0x00),
        (p.disc matches Some(d) && d.disc_structures@.contains_key(h.spec_cdb(7))) ==> reply_to(
            h,
            p,
            u,
            st,
        ) == Reply::Data(p.disc->0.disc_structures@[h.spec_cdb(7)]@),
        (p.disc matches Some(d) && !d.disc_structures@.contains_key(h.spec_cdb(7))) ==> reply_to(
            h,
            p,
            u,
            st,
        ) == Reply::Data(seq![0x00u8, 0x02, 0x00, 0x00]),
{
}

/// MODE SENSE(10) of page 0x2A answers the profile's captured capabilities
/// page whenever it is not empty, and the built-in 28-byte page (header
/// `00 1A`, page `2A 12 3F 37`) otherwise; page 0x3F answers the captured
/// page as it is; any other page is ILLEGAL REQUEST.
pub proof fn law_mode_sense_is_the_captured_page(
    h: SgIoHdr,
    p: LoadedProfile,
    u: UnlockSupport,
    st: ScsiState,
)
    requires
        h.spec_cdb(0) == 0x5A,
        !st.media_changed,
    ensures
        h.spec_cdb(2) & 0x3F == 0x2A && p.mode_2a@.len() > 0 ==> reply_to(h, p, u, st)
            == Reply::Data(p.mode_2a@),
        h.spec_cdb(2) & 0x3F == 0x2A && p.mode_2a@.len() == 0 ==> (reply_to(h, p, u, st) matches Reply::Data(
            r,
        ) && r.len() == 28 && r.take(12) == seq![0x00u8, 0x1A, 0, 0, 0, 0, 0, 0, 0x2A, 0x12, 0x3F, 0x37]
            && forall|k: int| 12 <= k < 28 ==> r[k] == 0),
        h.spec_cdb(2) & 0x3F == 0x3F ==> reply_to(h, p, u, st) == Reply::Data(p.mode_2a@),
        h.spec_cdb(2) & 0x3F != 0x2A && h.spec_cdb(2) & 0x3F != 0x3F ==> reply_to(h, p, u, st)
            == Reply::Check(0x05, 0x24, 0x00),
{
    let r = seq![0x00u8, 0x1A, 0, 0, 0, 0, 0, 0, 0x2A, 0x12, 0x3F, 0x37] + crate::scsi::zero_bytes(
        16,
    );
    assert(r.take(12) =~= seq![0x00u8, 0x1A, 0, 0, 0, 0, 0, 0, 0x2A, 0x12, 0x3F, 0x37]);
}

/// REPORT KEY of the RPC state answers the profile's captured RPC state
/// whenever it is not empty, and a built-in region-free state otherwise;
/// any other key class or format is ILLEGAL
/// REQUEST.
pub proof fn law_report_key_is_the_captured_state(
    h: SgIoHdr,
    p: LoadedProfile,
    u: UnlockSupport,
    st: ScsiState,
)
    requires
        h.spec_cdb(0) == 0xA4,
        !st.media_changed,
    ensures
        h.spec_cdb(7) == 0x08 && h.spec_cdb(10) & 0x3F == 0x08 && p.rpc_state@.len() > 0 ==> reply_to(
            h,
            p,
            u,
            st,
        ) == Reply::Data(p.rpc_state@),
        h.spec_cdb(7) == 0x08 && h.spec_cdb(10) & 0x3F == 0x08 && p.rpc_state@.len() == 0 ==> reply_to(
            h,
            p,
            u,
            st,
        ) == Reply::Data(seq![0x00u8, 0x06, 0x00, 0x00, 0x25, 0xFF, 0x01, 0x00]),
        !(h.spec_cdb(7) == 0x08 && h.spec_cdb(10) & 0x3F == 0x08) ==> reply_to(h, p, u, st)
            == Reply::Check(0x05, 0x24, 0x00),
{
}

/// A polled media-class GET EVENT STATUS NOTIFICATION answers an 8-byte
/// media event whose status byte (byte 5) reports media present (0x02)
/// exactly when a disc is loaded, and whose event (byte 4) is NewMedia only
/// with a disc; without a disc the armed event is kept for the next disc.
pub proof fn law_event_status_reports_media_presence(
    h: SgIoHdr,
    p: LoadedProfile,
    u: UnlockSupport,
    st: ScsiState,
)
    requires
        h.spec_cdb(0) == 0x4A,
        h.spec_cdb(1) & 0x01 != 0,
        h.spec_cdb(4) & 0x10 != 0,
        !st.media_changed,
    ensures
        reply_to(h, p, u, st) matches Reply::Data(r) && ({
            &&& r.len() == 8
            &&& r.take(4) == seq![0x00u8, 0x06, 0x04, 0x10]
            &&& r[5] == (if p.disc is Some { 0x02u8 } else { 0x00u8 })
            &&& r[4] == (if p.disc is Some && st.new_media_event { 0x02u8 } else { 0x00u8 })
            &&& r[6] == 0 && r[7] == 0
        }),
        p.disc is None ==> state_after(h, p, u, st) == st,
{
    let r = reply_to(h, p, u, st)->Data_0;
    assert(r.take(4) =~= seq![0x00u8, 0x06, 0x04, 0x10]);
}

/// GET EVENT STATUS NOTIFICATION that is not polled is ILLEGAL REQUEST; a
/// polled one for other classes than media answers the 4-byte "no event"
/// header.
pub proof fn law_event_status_other_requests(
    h: SgIoHdr,
    p: LoadedProfile,
    u: UnlockSupport,
    st: ScsiState,
)
    requires
        h.spec_cdb(0) == 0x4A,
        !st.media_changed,
    ensures
        h.spec_cdb(1) & 0x01 == 0 ==> reply_to(h, p, u, st) == Reply::Check(0x05, 0x24, 0x00),
        h.spec_cdb(1) & 0x01 != 0 && h.spec_cdb(4) & 0x10 == 0 ==> reply_to(h, p, u, st)
            == Reply::Data(seq![0x00u8, 0x02, 0x00, 0x10]),
{
}

} // verus!
