use bdemu::capture::{
    bdsm_header, capture_requests, disc_structure_request, fixture_result, lost_required, next_chunk,
    next_rename_attempt, normalize_ranges, rename_candidate, saved_len, sector_total, slug_from_lowercase, slugify, zero_fill_tail,
    SaveOutcome,
};
use bdemu::profile::parse_sector_file;

#[test]
fn short_read_zeroes_stale_tail() {
    let mut buf = vec![0xABu8; 16];
    zero_fill_tail(&mut buf, 6);
    assert_eq!(&buf[..6], &[0xAB; 6]);
    assert!(buf[6..].iter().all(|&b| b == 0), "tail not zeroed: {:?}", buf);
}

#[test]
fn full_read_leaves_buffer_untouched() {
    let mut buf = vec![0xCDu8; 8];
    zero_fill_tail(&mut buf, 8);
    assert!(buf.iter().all(|&b| b == 0xCD));
}

#[test]
fn overreported_transfer_does_not_panic() {
    let mut buf = vec![0xEEu8; 4];
    zero_fill_tail(&mut buf, 999);
    assert!(buf.iter().all(|&b| b == 0xEE));
}

#[test]
fn clean_capture_is_ok_errors_fail() {
    assert!(fixture_result(0, 0).is_ok());
    let e = fixture_result(1, 0).unwrap_err();
    assert!(e.contains("1 sector read error"), "got: {e}");
    assert!(!e.contains("1 sector read errors"), "got: {e}");
    assert!(fixture_result(42, 0).is_err());
    let e = fixture_result(0, 1).unwrap_err();
    assert!(e.contains("1 required SCSI structure failed"), "got: {e}");
    let e = fixture_result(0, 3).unwrap_err();
    assert!(e.contains("3 required SCSI structures failed"), "got: {e}");
}

#[test]
fn fixture_messages_are_exact() {
    assert_eq!(
        fixture_result(2, 5).unwrap_err(),
        "2 sector read errors — fixture incomplete (bad sectors zero-filled)"
    );
    assert_eq!(fixture_result(0, 1).unwrap_err(), "1 required SCSI structure failed — fixture incomplete");
}

#[test]
fn chunk_progresses_on_65536_multiple_range() {
    let chunk: u16 = 32;
    let start: u32 = 0;
    let end: u32 = 65536;
    let n = next_chunk(start, end, chunk);
    assert!(n > 0, "chunk must advance, got 0 (infinite loop)");
    assert_eq!(n, chunk);
    let mut lba = start;
    let mut total: u64 = 0;
    let mut iters = 0u32;
    while lba < end {
        let n = next_chunk(lba, end, chunk);
        assert!(n > 0);
        lba += n as u32;
        total += n as u64;
        iters += 1;
        assert!(iters < 10_000, "loop did not terminate");
    }
    assert_eq!(total, end as u64);
}

#[test]
fn chunk_clamps_to_remaining() {
    assert_eq!(next_chunk(100, 110, 32), 10);
    assert_eq!(next_chunk(0, 32, 32), 32);
    assert_eq!(next_chunk(0, 1_000_000, 32), 32);
}

#[test]
fn slugify_cannot_produce_a_traversing_name() {
    assert_eq!(slugify("../../etc"), "etc");
    assert_eq!(slugify("/etc/passwd"), "etc_passwd");
    assert_eq!(slugify(".."), "");
    assert_eq!(slugify("a/../b"), "a____b");
    for hostile in ["../x", "..\\x", "a/b", "a.b", "~/x", "$HOME", "a\0b"] {
        let s = slugify(hostile);
        assert!(
            !s.contains('/') && !s.contains('\\') && !s.contains('.') && !s.contains('\0'),
            "slugify({hostile:?}) = {s:?} must not carry a path character"
        );
    }
}

#[test]
fn slugify_normalises_ordinary_volume_ids() {
    assert_eq!(slugify("SAMPLE FILM"), "sample_film");
    assert_eq!(slugify("Amélie 2001"), "am_lie_2001");
    assert_eq!(slugify("  Spaced  "), "spaced");
    assert_eq!(slugify("THX-1138"), "thx_1138");
    assert_eq!(slugify("***"), "");
    assert_eq!(slugify(""), "");
}

#[test]
fn the_slug_of_lower_case_text_keeps_letters_and_digits() {
    assert_eq!(slug_from_lowercase("__a b__"), "a_b");
    assert_eq!(slug_from_lowercase("MiXeD"), "MiXeD");
}

#[test]
fn rename_candidates_count_from_two() {
    assert_eq!(rename_candidate("film", 0), "film");
    assert_eq!(rename_candidate("film", 1), "film_2");
    assert_eq!(rename_candidate("film", 9), "film_10");
}

#[test]
fn rename_search_steps_past_taken_names() {
    assert_eq!(next_rename_attempt(0, true, false), Some(1));
    assert_eq!(next_rename_attempt(4, true, false), Some(5));
    assert_eq!(next_rename_attempt(3, false, false), None);
    assert_eq!(next_rename_attempt(0, true, true), None);
    let taken = ["film", "film_2"];
    let output = "disc";
    let mut attempt: u32 = 0;
    let mut name = rename_candidate("film", attempt);
    while let Some(next) = next_rename_attempt(attempt, taken.contains(&name.as_str()), name == output) {
        attempt = next;
        name = rename_candidate("film", attempt);
    }
    assert_eq!(name, "film_3");
}

#[test]
fn rename_search_stops_at_the_output_directory() {
    let taken = ["film", "film_2"];
    let output = "film_2";
    let mut attempt: u32 = 0;
    let mut name = rename_candidate("film", attempt);
    while let Some(next) = next_rename_attempt(attempt, taken.contains(&name.as_str()), name == output) {
        attempt = next;
        name = rename_candidate("film", attempt);
    }
    assert_eq!(name, "film_2");
}

#[test]
fn ranges_are_cut_at_the_end_of_the_lba_space() {
    let raw = vec![(10u32, 5u32), (u32::MAX - 2, 10), (u32::MAX, 1)];
    assert_eq!(normalize_ranges(&raw), vec![(10, 5), (u32::MAX - 2, 2), (u32::MAX, 0)]);
    assert_eq!(sector_total(&vec![(0, u32::MAX), (5, 3)]), u32::MAX);
    assert_eq!(sector_total(&vec![(0, 4), (5, 3)]), 7);
}

#[test]
fn the_written_bdsm_reads_back() {
    let ranges = vec![(100u32, 2u32), (200, 1)];
    let mut file = bdsm_header(&ranges);
    assert_eq!(&file[..4], b"BDSM");
    assert_eq!(file.len(), 12 + 8 * 2);
    file.extend_from_slice(&vec![0x33u8; 3 * 2048]);
    let (_, map) = parse_sector_file(file);
    assert_eq!(map, vec![(100, 2, 28), (200, 1, 28 + 2 * 2048)]);
}

#[test]
fn the_capture_saves_the_planned_structures() {
    let r = capture_requests();
    assert_eq!(r.len(), 8);
    assert_eq!(r[0].file, "capacity.bin");
    assert_eq!(r[0].cdb, vec![0x25, 0, 0, 0, 0, 0, 0, 0, 0, 0]);
    assert_eq!(r[1].size, 4096);
    assert!(r[2].required);
    assert_eq!(r[3].file, "ds_00.bin");
    assert_eq!(r[6].file, "ds_0e.bin");
    assert_eq!(r[6].label, "DISC_STRUCTURE 0x0E (DCB)");
    assert_eq!(r[7].label, "DISC_STRUCTURE 0x0F (PFI_RO)");
    assert!(!r[7].required);
    let d = disc_structure_request(0xAB, "X", true);
    assert_eq!(d.file, "ds_ab.bin");
    assert_eq!(d.cdb, vec![0xAD, 0x01, 0, 0, 0, 0, 0, 0xAB, 0x10, 0x04, 0, 0]);
    assert_eq!(d.size, 4100);
}

#[test]
fn only_a_hard_failure_of_a_required_structure_counts() {
    assert!(!lost_required(SaveOutcome::Saved, true));
    assert!(!lost_required(SaveOutcome::Absent, true));
    assert!(lost_required(SaveOutcome::TransportFailure, true));
    assert!(lost_required(SaveOutcome::WriteFailed, true));
    assert!(lost_required(SaveOutcome::Failed, true));
    assert!(!lost_required(SaveOutcome::Failed, false));
    assert_eq!(saved_len(10, 8), 8);
    assert_eq!(saved_len(3, 8), 3);
}
