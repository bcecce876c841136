use bdemu::profile::{parse_sector_file, DiscProfile, LoadedProfile};
use bdemu::scsi::{handle_scsi, lookup_sector, read_sectors, set_media_changed, Answer, unlock_resp_len, ScsiState, UnlockSupport};
use bdemu::sg::SgIoHdr;
use std::collections::HashMap;

const MARKER: [u8; 4] = [0x4D, 0x4B, 0x56, 0x21];
const UNLOCK_SHAPE: (u8, u8) = (0x01, 0xF1);

fn unlock() -> UnlockSupport {
    UnlockSupport { read_buffer_cdbs: vec![UNLOCK_SHAPE], signature: [0; 4], marker: MARKER }
}

fn empty_profile() -> LoadedProfile {
    LoadedProfile {
        name: String::new(),
        inquiry: vec![0u8; 96],
        current_profile: 0x0043,
        features: Vec::new(),
        rpc_state: Vec::new(),
        read_bufs: Vec::new(),
        mode_2a: Vec::new(),
        disc: None,
    }
}

fn empty_disc() -> DiscProfile {
    DiscProfile {
        toc: Vec::new(),
        capacity: Vec::new(),
        disc_info: Vec::new(),
        disc_structures: HashMap::new(),
        sector_data: Vec::new(),
        sectors: Vec::new(),
        sector_map: Vec::new(),
    }
}

fn disc_profile() -> LoadedProfile {
    let mut p = empty_profile();
    p.disc = Some(empty_disc());
    p
}

fn hdr_for(cdb: &[u8], data: Vec<u8>, sense_len: usize) -> SgIoHdr {
    SgIoHdr {
        interface_id: b'S' as i32,
        dxfer_direction: -3,
        cmd_len: cdb.len() as u8,
        mx_sb_len: sense_len as u8,
        iovec_count: 0,
        dxfer_len: data.len() as u32,
        dxferp: Some(data),
        cmdp: Some(cdb.to_vec()),
        sbp: Some(vec![0u8; sense_len]),
        timeout: 5000,
        flags: 0,
        pack_id: 0,
        status: 0,
        masked_status: 0,
        msg_status: 0,
        sb_len_wr: 0,
        host_status: 0,
        driver_status: 0,
        resid: 0,
        duration: 0,
        info: 0,
    }
}

/// Runs one command; returns (status, data, sense, resid).
fn run(profile: &LoadedProfile, st: &mut ScsiState, cdb: &[u8], data: Vec<u8>) -> (u8, Vec<u8>, Vec<u8>, i32) {
    let mut hdr = hdr_for(cdb, data, 32);
    handle_scsi(&mut hdr, profile, st, &unlock());
    (hdr.status, hdr.dxferp.unwrap(), hdr.sbp.unwrap(), hdr.resid)
}

fn sparse_disc_profile(ranges: &[(u32, u32)], fill: u8) -> LoadedProfile {
    let mut file = Vec::new();
    file.extend_from_slice(b"BDSM");
    file.extend_from_slice(&1u32.to_le_bytes());
    file.extend_from_slice(&(ranges.len() as u32).to_le_bytes());
    for (start, count) in ranges {
        file.extend_from_slice(&start.to_le_bytes());
        file.extend_from_slice(&count.to_le_bytes());
    }
    let sectors: u32 = ranges.iter().map(|(_, c)| c).sum();
    file.extend(std::iter::repeat_n(fill, sectors as usize * 2048));
    let (sectors, sector_map) = parse_sector_file(file);
    assert!(!sector_map.is_empty(), "fixture must parse as sparse BDSM");
    let mut p = disc_profile();
    if let Some(d) = p.disc.as_mut() {
        d.sectors = sectors;
        d.sector_map = sector_map;
    }
    p
}

fn flat_disc_profile(sector_count: usize, fill: u8) -> LoadedProfile {
    let mut p = disc_profile();
    if let Some(d) = p.disc.as_mut() {
        d.sectors = vec![fill; sector_count * 2048];
    }
    p
}

fn read10_cdb(lba: u32, count: u16) -> [u8; 10] {
    let l = lba.to_be_bytes();
    let c = count.to_be_bytes();
    [0x28, 0, l[0], l[1], l[2], l[3], 0, c[0], c[1], 0]
}

fn read12_cdb(lba: u32, count: u32) -> [u8; 12] {
    let l = lba.to_be_bytes();
    let c = count.to_be_bytes();
    [0xA8, 0, l[0], l[1], l[2], l[3], c[0], c[1], c[2], c[3], 0, 0]
}

fn run_read(profile: &LoadedProfile, st: &mut ScsiState, cdb: &[u8], sectors: usize) -> (u8, Vec<u8>, Vec<u8>) {
    let (status, data, sense, _) = run(profile, st, cdb, vec![0xEEu8; sectors * 2048]);
    (status, data, sense)
}

#[test]
fn unit_attention_survives_inquiry() {
    let profile = empty_profile();
    let mut st = ScsiState::new();
    set_media_changed(&mut st, true);

    let (status, _, _, _) = run(&profile, &mut st, &[0x12u8, 0, 0, 0, 96, 0], vec![0u8; 96]);
    assert_eq!(status, 0x00, "INQUIRY must return GOOD, not consume the UA");

    let tur_cdb = [0x00u8, 0, 0, 0, 0, 0];
    let (status, _, sense, _) = run(&profile, &mut st, &tur_cdb, Vec::new());
    assert_eq!(status, 0x02, "first real command after media change must be CHECK CONDITION");
    assert_eq!(sense[2], 0x06, "sense key must be UNIT ATTENTION");
    assert_eq!(sense[12], 0x28, "ASC must be 0x28 (medium may have changed)");

    let (_, _, sense, _) = run(&profile, &mut st, &tur_cdb, Vec::new());
    assert_ne!(sense[12], 0x28, "UA must be cleared after first delivery (one-shot)");
}

#[test]
fn get_event_new_media_is_edge_triggered() {
    let profile = disc_profile();
    let mut st = ScsiState::new();
    set_media_changed(&mut st, true);
    st.media_changed = false;

    let gesn_cdb = [0x4Au8, 0x01, 0, 0, 0x10, 0, 0, 0, 8, 0];
    let (_, d1, _, _) = run(&profile, &mut st, &gesn_cdb, vec![0u8; 8]);
    assert_eq!(d1[4], 0x02, "first poll after media change must be NewMedia");
    assert_eq!(d1[5], 0x02, "media status must be door-closed/media-present");

    let (_, d2, _, _) = run(&profile, &mut st, &gesn_cdb, vec![0u8; 8]);
    assert_eq!(d2[4], 0x00, "second poll must report NoChange (edge already delivered)");
    assert_eq!(d2[5], 0x02, "media status must remain media-present");
}

#[test]
fn request_sense_clears_after_reporting() {
    let mut st = ScsiState::new();
    st.last_sense = (0x06, 0x28, 0x00);
    let rs_cdb = [0x03u8, 0, 0, 0, 18, 0];

    let (_, d1, _, _) = run(&empty_profile(), &mut st, &rs_cdb, vec![0u8; 18]);
    assert_eq!(d1[2], 0x06, "sense key must be reported");
    assert_eq!(d1[12], 0x28, "ASC must be reported");

    let (_, d2, _, _) = run(&empty_profile(), &mut st, &rs_cdb, vec![0u8; 18]);
    assert_eq!(d2[2], 0x00, "sense key must be cleared after first report");
    assert_eq!(d2[12], 0x00, "ASC must be cleared after first report");
    assert_eq!(d2[13], 0x00, "ASCQ must be cleared after first report");
}

#[test]
fn request_sense_reports_pending_media_change_ua() {
    let mut st = ScsiState::new();
    st.last_sense = (0, 0, 0);
    set_media_changed(&mut st, true);
    let rs_cdb = [0x03u8, 0, 0, 0, 18, 0];

    let (_, d1, _, _) = run(&empty_profile(), &mut st, &rs_cdb, vec![0u8; 18]);
    assert_eq!(d1[2], 0x06, "bare REQUEST SENSE must report UNIT ATTENTION");
    assert_eq!(d1[12], 0x28, "ASC must be MEDIUM MAY HAVE CHANGED");

    let (_, d2, _, _) = run(&empty_profile(), &mut st, &rs_cdb, vec![0u8; 18]);
    assert_eq!(d2[2], 0x00, "UA must be cleared after first report");
    assert_eq!(d2[12], 0x00, "ASC must be cleared after first report");

    let (_, _, ts, _) = run(&empty_profile(), &mut st, &[0x00u8, 0, 0, 0, 0, 0], Vec::new());
    assert_ne!(ts[12], 0x28, "UA consumed by REQUEST SENSE must not resurface on next command");
}

#[test]
fn lookup_sector_resolves_out_of_order_capture() {
    let bdsm = {
        let mut v = Vec::new();
        v.extend_from_slice(b"BDSM");
        v.extend_from_slice(&1u32.to_le_bytes());
        v.extend_from_slice(&2u32.to_le_bytes());
        v.extend_from_slice(&1000u32.to_le_bytes());
        v.extend_from_slice(&2u32.to_le_bytes());
        v.extend_from_slice(&100u32.to_le_bytes());
        v.extend_from_slice(&3u32.to_le_bytes());
        v.extend_from_slice(&vec![0u8; (2 + 3) * 2048]);
        v
    };
    let (_, map) = parse_sector_file(bdsm);
    assert_eq!(map[0].0, 100);
    assert_eq!(map[1].0, 1000);
    let off_100 = map[0].2;
    let off_1000 = map[1].2;

    assert_eq!(lookup_sector(&map, 100), Some(off_100));
    assert_eq!(lookup_sector(&map, 101), Some(off_100 + 2048));
    assert_eq!(lookup_sector(&map, 102), Some(off_100 + 2 * 2048));
    assert_eq!(lookup_sector(&map, 1000), Some(off_1000));
    assert_eq!(lookup_sector(&map, 1001), Some(off_1000 + 2048));

    assert_eq!(lookup_sector(&map, 99), None);
    assert_eq!(lookup_sector(&map, 103), None);
    assert_eq!(lookup_sector(&map, 500), None);
    assert_eq!(lookup_sector(&map, 1002), None);
}

#[test]
fn unlock_resp_len_clamps_hostile_dxfer_len() {
    assert_eq!(unlock_resp_len(0xFFFF_FFFF), 64);
    assert_eq!(unlock_resp_len(1 << 30), 64);
    assert_eq!(unlock_resp_len(64), 64);
    assert_eq!(unlock_resp_len(65), 64);
    assert_eq!(unlock_resp_len(16), 16);
    assert_eq!(unlock_resp_len(0), 0);
}

#[test]
fn read_buffer_unlock_writes_marker() {
    let profile = empty_profile();
    let mut st = ScsiState::new();
    let cdb = [0x3Cu8, UNLOCK_SHAPE.0, UNLOCK_SHAPE.1, 0, 0, 0, 0, 0, 0, 0];
    let (_, data, _, _) = run(&profile, &mut st, &cdb, vec![0u8; 64]);
    assert_eq!(&data[12..16], &MARKER, "unlock marker must be written");
    assert_eq!(&data[0..4], &[0u8; 4], "an unknown drive has an all-zero signature");
}

#[test]
fn read10_with_no_captured_sectors_is_check_condition_not_zeros() {
    let mut st = ScsiState::new();
    let profile = disc_profile();
    let (status, data, sense) = run_read(&profile, &mut st, &read10_cdb(0, 1), 1);
    assert_eq!(status, 0x02, "a read with nothing captured must be CHECK CONDITION, not GOOD");
    assert_eq!(sense[2], 0x03, "sense key must be MEDIUM ERROR");
    assert_eq!(sense[12], 0x11, "ASC must be UNRECOVERED READ ERROR");
    assert!(data.iter().all(|&b| b == 0xEE), "no data may be presented for a failed read");
}

#[test]
fn read10_captured_zero_sector_is_served_as_good() {
    let mut st = ScsiState::new();
    let profile = sparse_disc_profile(&[(100, 3)], 0x00);
    let (status, data, _) = run_read(&profile, &mut st, &read10_cdb(101, 1), 1);
    assert_eq!(status, 0x00, "a captured sector must be GOOD");
    assert!(data.iter().all(|&b| b == 0), "captured zeros must be served verbatim");
}

#[test]
fn read10_hit_serves_captured_bytes() {
    let mut st = ScsiState::new();
    let profile = sparse_disc_profile(&[(100, 3)], 0xA5);
    let (status, data, _) = run_read(&profile, &mut st, &read10_cdb(100, 2), 2);
    assert_eq!(status, 0x00);
    assert!(data.iter().all(|&b| b == 0xA5), "captured bytes must appear");
}

#[test]
fn read10_outside_the_captured_map_is_check_condition() {
    let mut st = ScsiState::new();
    let profile = sparse_disc_profile(&[(100, 3)], 0xA5);
    let (status, data, sense) = run_read(&profile, &mut st, &read10_cdb(500, 1), 1);
    assert_eq!(status, 0x02, "uncaptured LBA must be CHECK CONDITION");
    assert_eq!(sense[2], 0x03);
    assert_eq!(sense[12], 0x11);
    assert!(data.iter().all(|&b| b == 0xEE), "no data for a failed read");
}

#[test]
fn read10_partially_captured_span_fails() {
    let mut st = ScsiState::new();
    let profile = sparse_disc_profile(&[(100, 2)], 0xA5);
    let (status, _, sense) = run_read(&profile, &mut st, &read10_cdb(100, 3), 3);
    assert_eq!(status, 0x02, "a partially-captured span must fail");
    assert_eq!(sense[12], 0x11);
}

#[test]
fn read12_miss_and_hit_match_read10() {
    let mut st = ScsiState::new();
    let profile = sparse_disc_profile(&[(7, 1)], 0x5A);
    let (status, data, _) = run_read(&profile, &mut st, &read12_cdb(7, 1), 1);
    assert_eq!(status, 0x00, "READ(12) hit must be GOOD");
    assert!(data.iter().all(|&b| b == 0x5A));
    let (status, _, sense) = run_read(&profile, &mut st, &read12_cdb(8, 1), 1);
    assert_eq!(status, 0x02, "READ(12) miss must be CHECK CONDITION");
    assert_eq!(sense[12], 0x11);
}

#[test]
fn read10_flat_dump_past_end_is_check_condition() {
    let mut st = ScsiState::new();
    let profile = flat_disc_profile(2, 0x11);
    let (status, data, _) = run_read(&profile, &mut st, &read10_cdb(1, 1), 1);
    assert_eq!(status, 0x00, "an in-range flat sector must be GOOD");
    assert!(data.iter().all(|&b| b == 0x11));
    let (status, _, sense) = run_read(&profile, &mut st, &read10_cdb(2, 1), 1);
    assert_eq!(status, 0x02, "past the end of a flat dump must fail");
    assert_eq!(sense[12], 0x11);
}

#[test]
fn read_miss_is_visible_to_request_sense() {
    let mut st = ScsiState::new();
    let profile = sparse_disc_profile(&[(100, 1)], 0xA5);
    let _ = run_read(&profile, &mut st, &read10_cdb(999, 1), 1);
    let (_, rs_data, _, _) = run(&profile, &mut st, &[0x03u8, 0, 0, 0, 18, 0], vec![0u8; 18]);
    assert_eq!(rs_data[2], 0x03, "REQUEST SENSE must report MEDIUM ERROR");
    assert_eq!(rs_data[12], 0x11, "with UNRECOVERED READ ERROR");
}

#[test]
fn read_buffer_unimplemented_mode_is_illegal_request() {
    let mut st = ScsiState::new();
    let profile = empty_profile();
    let cdb = [0x3Cu8, 0, 0x00, 0, 0, 0, 0, 0, 64, 0];
    let (status, _, sense, _) = run(&profile, &mut st, &cdb, vec![0u8; 64]);
    assert_eq!(status, 0x02, "unimplemented mode must be CHECK CONDITION");
    assert_eq!(sense[2], 0x05, "sense key must be ILLEGAL REQUEST");
    assert_eq!(sense[12], 0x24, "ASC must be INVALID FIELD IN CDB");
}

#[test]
fn read12_lba_past_u32_max_is_a_miss_not_a_wrapped_hit() {
    let mut st = ScsiState::new();
    let profile = sparse_disc_profile(&[(0, 2), (0xFFFF_FFFE, 2)], 0xA5);
    let (status, data, sense) = run_read(&profile, &mut st, &read12_cdb(0xFFFF_FFFE, 4), 4);
    assert_eq!(status, 0x02, "an LBA past u32::MAX must be a miss");
    assert_eq!(sense[2], 0x03, "sense key must be MEDIUM ERROR");
    assert_eq!(sense[12], 0x11, "ASC must be UNRECOVERED READ ERROR");
    assert!(data.iter().all(|&b| b == 0xEE), "no data may be served");
}

#[test]
fn read10_short_sector_data_pattern_is_a_miss_not_zero_padded() {
    let mut st = ScsiState::new();
    let mut profile = disc_profile();
    if let Some(d) = profile.disc.as_mut() {
        d.sector_data = vec![0xC3u8; 100];
    }
    let (status, data, sense) = run_read(&profile, &mut st, &read10_cdb(0, 1), 1);
    assert_eq!(status, 0x02, "a truncated single-pattern sector must fail");
    assert_eq!(sense[12], 0x11, "ASC must be UNRECOVERED READ ERROR");
    assert!(data.iter().all(|&b| b == 0xEE), "no partial-then-zero data may be served");
}

#[test]
fn read10_full_sector_data_pattern_is_served_as_good() {
    let mut st = ScsiState::new();
    let mut profile = disc_profile();
    if let Some(d) = profile.disc.as_mut() {
        d.sector_data = vec![0x7Eu8; 2048];
    }
    let (status, data, _) = run_read(&profile, &mut st, &read10_cdb(5, 1), 1);
    assert_eq!(status, 0x00, "a whole-sector pattern must be GOOD");
    assert!(data.iter().all(|&b| b == 0x7E), "the captured pattern must be served on every LBA");
}

#[test]
fn read10_overlapping_capture_serves_nothing_not_header() {
    let mut st = ScsiState::new();
    let mut file = Vec::new();
    file.extend_from_slice(b"BDSM");
    file.extend_from_slice(&1u32.to_le_bytes());
    file.extend_from_slice(&2u32.to_le_bytes());
    file.extend_from_slice(&100u32.to_le_bytes());
    file.extend_from_slice(&5u32.to_le_bytes());
    file.extend_from_slice(&103u32.to_le_bytes());
    file.extend_from_slice(&3u32.to_le_bytes());
    file.extend_from_slice(&vec![0xEEu8; (5 + 3) * 2048]);
    let (sectors, sector_map) = parse_sector_file(file);
    let mut profile = disc_profile();
    if let Some(d) = profile.disc.as_mut() {
        d.sectors = sectors;
        d.sector_map = sector_map;
    }
    let (status, data, sense) = run_read(&profile, &mut st, &read10_cdb(0, 1), 1);
    assert_eq!(status, 0x02, "an overlapping capture must miss, not serve the BDSM header");
    assert_eq!(sense[12], 0x11, "ASC must be UNRECOVERED READ ERROR");
    assert!(data.iter().all(|&b| b == 0xEE), "no header bytes may reach the host");
}

#[test]
fn read_buffer_mode6_is_deliberate_empty_good() {
    let mut st = ScsiState::new();
    let profile = empty_profile();
    let cdb = [0x3Cu8, 6, 0, 0, 0, 0, 0, 0, 64, 0];
    let (status, data, _, resid) = run(&profile, &mut st, &cdb, vec![0xEEu8; 64]);
    assert_eq!(status, 0x00, "mode 6 is a deliberate empty-GOOD, not CHECK CONDITION");
    assert_eq!(resid, 64, "an empty response leaves the whole buffer residual");
    assert!(data.iter().all(|&b| b == 0), "an empty response zero-fills the host buffer");
}

#[test]
fn unsupported_opcode_is_invalid_command() {
    let mut st = ScsiState::new();
    let (status, _, sense, _) = run(&empty_profile(), &mut st, &[0xFFu8, 0, 0, 0, 0, 0], vec![0u8; 8]);
    assert_eq!(status, 0x02);
    assert_eq!(sense[2], 0x05);
    assert_eq!(sense[12], 0x20);
    assert_eq!(st.last_sense, (0x05, 0x20, 0x00), "the sense is latched for REQUEST SENSE");
}

#[test]
fn test_unit_ready_without_a_disc_is_not_ready() {
    let mut st = ScsiState::new();
    let (status, _, sense, _) = run(&empty_profile(), &mut st, &[0x00u8, 0, 0, 0, 0, 0], Vec::new());
    assert_eq!(status, 0x02);
    assert_eq!(sense[2], 0x02);
    assert_eq!(sense[12], 0x3A);
    let (status, _, _, _) = run(&disc_profile(), &mut st, &[0x00u8, 0, 0, 0, 0, 0], Vec::new());
    assert_eq!(status, 0x00);
    assert_eq!(st.last_sense, (0, 0, 0));
}

#[test]
fn set_media_changed_arms_both_flags_and_withdrawal_keeps_the_event() {
    let mut st = ScsiState::new();
    set_media_changed(&mut st, true);
    assert!(st.media_changed && st.new_media_event);
    set_media_changed(&mut st, false);
    assert!(!st.media_changed);
    assert!(st.new_media_event, "withdrawing a change does not disarm an armed event");
}

#[test]
fn read_transfer_is_cut_to_the_host_length() {
    let mut st = ScsiState::new();
    let profile = sparse_disc_profile(&[(0, 2)], 0x42);
    let (status, data, _, resid) = run(&profile, &mut st, &read10_cdb(0, 2), vec![0xEEu8; 2048]);
    assert_eq!(status, 0x00);
    assert!(data.iter().all(|&b| b == 0x42));
    assert_eq!(resid, 0);
}

#[test]
fn read_serves_each_captured_sector_in_order_then_zeros() {
    let mut st = ScsiState::new();
    let mut profile = flat_disc_profile(3, 0);
    if let Some(d) = profile.disc.as_mut() {
        for i in 0..3 {
            for b in &mut d.sectors[i * 2048..(i + 1) * 2048] {
                *b = 0x10 + i as u8;
            }
        }
    }
    // Three sectors asked for, but the host transfer holds two and a half.
    let (status, data, _, resid) = run(&profile, &mut st, &read10_cdb(0, 3), vec![0xEEu8; 5120]);
    assert_eq!(status, 0x00);
    assert!(data[..2048].iter().all(|&b| b == 0x10));
    assert!(data[2048..4096].iter().all(|&b| b == 0x11));
    assert!(data[4096..].iter().all(|&b| b == 0), "past the whole sectors the transfer is zero");
    assert_eq!(resid, 0);
}

#[test]
fn read_sectors_serves_whole_captured_reads_only() {
    let mut p = disc_profile();
    let mut sectors = vec![0x11u8; 2048];
    sectors.extend_from_slice(&[0x22u8; 2048]);
    p.disc.as_mut().unwrap().sectors = sectors.clone();
    let hdr = hdr_for(&[0x28, 0, 0, 0, 0, 0, 0, 0, 2, 0], vec![0u8; 4096], 32);
    match read_sectors(&hdr, &p, 0, 2) {
        Answer::Data(v) => assert_eq!(v, sectors),
        _ => panic!("both sectors are captured"),
    }
    match read_sectors(&hdr, &p, 1, 2) {
        Answer::Check(k, a, q) => assert_eq!((k, a, q), (0x03, 0x11, 0x00)),
        _ => panic!("LBA 2 is not captured"),
    }
    match read_sectors(&hdr, &empty_profile(), 0, 1) {
        Answer::Check(k, a, q) => assert_eq!((k, a, q), (0x02, 0x3A, 0x00)),
        _ => panic!("no disc is loaded"),
    }
}
