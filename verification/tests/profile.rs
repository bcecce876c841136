use bdemu::disc_dir::{disc_dir_candidate, is_plain_disc_name, is_within, join_dir, safe_disc_dir, DiscDirProbe};
use bdemu::drive_toml::parse_drive_toml;
use bdemu::profile::{parse_sector_file, DiscProfile, LoadedProfile};
use bdemu::profile_build::{
    blob_name_ok, blob_plan,
    disc_from_blobs, feature_table, profile_from_dir, profile_from_json, profile_kind, read_buffer_table,
    DirBlobs, DiscBlobs, ProfileKind,
};
use bdemu::profile_text::{parse_buffer_key, parse_hex, parse_toml_value, parse_u16_opt, read_buffer_file_id, structure_file_id};
use std::collections::HashMap;

fn bdsm_header(num_ranges: u32) -> Vec<u8> {
    let mut v = Vec::new();
    v.extend_from_slice(b"BDSM");
    v.extend_from_slice(&1u32.to_le_bytes());
    v.extend_from_slice(&num_ranges.to_le_bytes());
    v
}

fn no_fs() -> DiscDirProbe {
    DiscDirProbe { base: None, resolved: None, resolved_is_dir: false, candidate_is_dir: false }
}

#[test]
fn safe_disc_dir_rejects_traversal() {
    // The base does not exist: it does not resolve, and nothing under it is a directory.
    let base = "/nonexistent/profile/discs";
    assert!(safe_disc_dir(base, "", &no_fs()).is_none(), "empty name");
    assert!(safe_disc_dir(base, "..", &no_fs()).is_none(), "parent dir");
    assert!(safe_disc_dir(base, ".", &no_fs()).is_none(), "current dir");
    assert!(safe_disc_dir(base, "../etc", &no_fs()).is_none(), "slash traversal");
    assert!(safe_disc_dir(base, "a/b", &no_fs()).is_none(), "embedded slash");
    assert!(safe_disc_dir(base, "a\\b", &no_fs()).is_none(), "backslash");
    assert!(safe_disc_dir(base, "a\0b", &no_fs()).is_none(), "nul byte");
    assert!(safe_disc_dir(base, "missing_disc", &no_fs()).is_none());
}

#[test]
fn safe_disc_dir_accepts_existing_plain_component() {
    let probe = DiscDirProbe {
        base: Some("/p/discs".to_string()),
        resolved: Some("/p/discs/my_disc".to_string()),
        resolved_is_dir: true,
        candidate_is_dir: true,
    };
    let got = safe_disc_dir("/p/discs", "my_disc", &probe);
    assert_eq!(got.as_deref(), Some("/p/discs/my_disc"));
}

#[test]
fn a_symlink_out_of_the_discs_dir_is_refused() {
    let probe = DiscDirProbe {
        base: Some("/p/discs".to_string()),
        resolved: Some("/p/discsX/elsewhere".to_string()),
        resolved_is_dir: true,
        candidate_is_dir: true,
    };
    assert!(safe_disc_dir("/p/discs", "link", &probe).is_none());
    let not_dir = DiscDirProbe {
        base: Some("/p/discs".to_string()),
        resolved: Some("/p/discs/file".to_string()),
        resolved_is_dir: false,
        candidate_is_dir: false,
    };
    assert!(safe_disc_dir("/p/discs", "file", &not_dir).is_none());
    let unresolved_base = DiscDirProbe { base: None, resolved: None, resolved_is_dir: false, candidate_is_dir: true };
    assert_eq!(safe_disc_dir("discs", "d", &unresolved_base).as_deref(), Some("discs/d"));
}

#[test]
fn disc_dir_helpers_follow_path_rules() {
    assert!(is_plain_disc_name("sample"));
    assert!(!is_plain_disc_name(".."));
    assert!(is_plain_disc_name("..."));
    assert_eq!(join_dir("/a/", "b"), "/a/b");
    assert_eq!(join_dir("/a", "b"), "/a/b");
    assert_eq!(join_dir("", "b"), "b");
    assert!(is_within("/a/b", "/a/b"));
    assert!(is_within("/a/b/c", "/a/b"));
    assert!(!is_within("/a/bc", "/a/b"));
    assert!(is_within("/x", "/"));
    assert_eq!(disc_dir_candidate("/p/discs", "d1").as_deref(), Some("/p/discs/d1"));
    assert_eq!(disc_dir_candidate("/p/discs", "../d1"), None);
}

#[test]
fn huge_num_ranges_does_not_allocate_or_panic() {
    let data = bdsm_header(0xFFFF_FFFF);
    let (_, map) = parse_sector_file(data);
    assert!(map.is_empty(), "hostile num_ranges must fall back to flat");
}

#[test]
fn truncated_range_body_falls_back_to_flat() {
    let mut data = bdsm_header(1);
    data.extend_from_slice(&0u32.to_le_bytes());
    data.extend_from_slice(&1000u32.to_le_bytes());
    let (_, map) = parse_sector_file(data);
    assert!(map.is_empty(), "truncated payload must fall back to flat, not build an OOB map");
}

#[test]
fn count_multiply_overflow_falls_back_to_flat() {
    let mut data = bdsm_header(1);
    data.extend_from_slice(&0u32.to_le_bytes());
    data.extend_from_slice(&u32::MAX.to_le_bytes());
    let (_, map) = parse_sector_file(data);
    assert!(map.is_empty());
}

#[test]
fn valid_bdsm_builds_in_bounds_map() {
    let mut data = bdsm_header(1);
    data.extend_from_slice(&100u32.to_le_bytes());
    data.extend_from_slice(&2u32.to_le_bytes());
    let payload_start = data.len();
    data.extend_from_slice(&vec![0xABu8; 2 * 2048]);
    let total_len = data.len();

    let (out, map) = parse_sector_file(data);
    assert_eq!(map.len(), 1);
    let (start, count, off) = map[0];
    assert_eq!(start, 100);
    assert_eq!(count, 2);
    assert_eq!(off, payload_start);
    assert!(off + count as usize * 2048 <= total_len);
    assert_eq!(out.len(), total_len);
}

#[test]
fn out_of_order_ranges_are_sorted_for_binary_search() {
    let mut data = bdsm_header(2);
    data.extend_from_slice(&1000u32.to_le_bytes());
    data.extend_from_slice(&1u32.to_le_bytes());
    data.extend_from_slice(&100u32.to_le_bytes());
    data.extend_from_slice(&1u32.to_le_bytes());
    let off_1000 = data.len();
    data.extend_from_slice(&[0xCCu8; 2048]);
    let off_100 = data.len();
    data.extend_from_slice(&[0xAAu8; 2048]);

    let (_, map) = parse_sector_file(data);
    assert_eq!(map.len(), 2);
    assert!(map.windows(2).all(|w| w[0].0 <= w[1].0), "sector_map must be sorted ascending");
    let r100 = map.iter().find(|&&(s, _, _)| s == 100).unwrap();
    let r1000 = map.iter().find(|&&(s, _, _)| s == 1000).unwrap();
    assert_eq!(r100.2, off_100, "LBA-100 range keeps its file-order offset");
    assert_eq!(r1000.2, off_1000, "LBA-1000 range keeps its file-order offset");
}

#[test]
fn sector_file_map_has_declared_ranges_past_the_table() {
    let mut data = bdsm_header(3);
    for (start, count) in [(500u32, 1u32), (7, 2), (90, 1)] {
        data.extend_from_slice(&start.to_le_bytes());
        data.extend_from_slice(&count.to_le_bytes());
    }
    data.extend_from_slice(&vec![0x11u8; 4 * 2048]);
    let total_len = data.len();
    let (bytes, map) = parse_sector_file(data.clone());
    assert_eq!(bytes, data);
    assert_eq!(map.len(), 3);
    assert_eq!(map.iter().map(|r| r.0).collect::<Vec<_>>(), vec![7, 90, 500]);
    for &(_, count, off) in &map {
        assert!(off >= 12 + 8 * map.len());
        assert!(off + count as usize * 2048 <= total_len);
    }

    let flat = vec![0x42u8, 0x44, 0x53, 0x4D, 0, 0];
    let (bytes, map) = parse_sector_file(flat.clone());
    assert_eq!(bytes, flat);
    assert!(map.is_empty());
}

#[test]
fn overlapping_ranges_discard_the_whole_file() {
    let mut data = bdsm_header(2);
    data.extend_from_slice(&10u32.to_le_bytes());
    data.extend_from_slice(&4u32.to_le_bytes());
    data.extend_from_slice(&12u32.to_le_bytes());
    data.extend_from_slice(&1u32.to_le_bytes());
    data.extend_from_slice(&vec![0u8; 5 * 2048]);
    let (bytes, map) = parse_sector_file(data);
    assert!(bytes.is_empty() && map.is_empty());
}

#[test]
fn toml_value_keeps_hash_inside_quotes() {
    assert_eq!(parse_toml_value(r#""BDR-#1""#), "BDR-#1");
    assert_eq!(parse_toml_value(r#"  "file#2.bin"  "#), "file#2.bin");
    assert_eq!(parse_toml_value(r#""value"  # a comment"#), "value");
    assert_eq!(parse_toml_value(r#""plain""#), "plain");
    assert_eq!(parse_toml_value("0x0043 # profile"), "0x0043");
    assert_eq!(parse_toml_value("  bare  "), "bare");
    assert_eq!(parse_toml_value(r#""oops # trailing"#), "oops");
    assert_eq!(parse_toml_value(r#"ACME "Pro""#), r#"ACME "Pro""#);
    assert_eq!(parse_toml_value(r#"trailing"  "#), r#"trailing""#);
}

#[test]
fn parse_u16_preserves_default_on_bad_input() {
    assert_eq!(parse_u16_opt("0x0043"), Some(0x0043));
    assert_eq!(parse_u16_opt("0X0043"), Some(0x0043));
    assert_eq!(parse_u16_opt("67"), Some(67));
    assert_eq!(parse_u16_opt("invalid"), None);
    assert_eq!(parse_u16_opt(""), None);
}

#[test]
fn numbers_follow_from_str_radix() {
    assert_eq!(parse_u16_opt(" 65535 "), Some(65535));
    assert_eq!(parse_u16_opt("65536"), None);
    assert_eq!(parse_u16_opt("0x10000"), None);
    assert_eq!(parse_u16_opt("+7"), Some(7));
    assert_eq!(parse_u16_opt("-7"), None);
    assert_eq!(parse_u16_opt("0x"), None);
    assert_eq!(parse_u16_opt("0x+1f"), Some(0x1f));
    assert_eq!(parse_buffer_key("0xF1"), Some(0xF1));
    assert_eq!(parse_buffer_key("0x0xf1"), Some(0xF1));
    assert_eq!(parse_buffer_key("f1"), Some(0xF1));
    assert_eq!(parse_buffer_key("100"), None);
    assert_eq!(parse_buffer_key("zz"), None);
}

#[test]
fn hex_blobs_skip_separators_and_an_odd_digit() {
    assert_eq!(parse_hex("01 0c:02-00 de ad be ef"), vec![0x01, 0x0c, 0x02, 0x00, 0xde, 0xad, 0xbe, 0xef]);
    assert_eq!(parse_hex("ABC"), vec![0xAB]);
    assert_eq!(parse_hex(""), Vec::<u8>::new());
    assert_eq!(parse_hex("xyz"), Vec::<u8>::new());
}

#[test]
fn blob_file_names_give_their_ids() {
    assert_eq!(read_buffer_file_id("rb_f1.bin"), Some(0xF1));
    assert_eq!(read_buffer_file_id("rb_.bin"), None);
    assert_eq!(read_buffer_file_id("rb_f1.txt"), None);
    assert_eq!(read_buffer_file_id("ds_00.bin"), None);
    assert_eq!(structure_file_id("ds_0e.bin"), Some(0x0E));
    assert_eq!(structure_file_id("ds_100.bin"), None);
}

#[test]
fn drive_toml_sets_what_its_sections_name() {
    let text = "# comment\n[drive]\nproduct = \"BDR-#1\" # trailing\ncurrent_profile = bogus\n\n[files]\ninquiry = \"inq.bin\"\nrpc_state = rpc.bin\n[features]\n0x0108 = gc_0108.bin\noops = bad.bin\n\"0x010C\" = gc_010c.bin\n[read_buffer]\n0xF1 = rb_f1.bin\nzz = nope.bin\n[unlock]\nx = y\n";
    let cfg = parse_drive_toml(text);
    assert_eq!(cfg.name, "BDR-#1");
    assert_eq!(cfg.current_profile, 0x0043, "a malformed profile keeps the default");
    assert_eq!(cfg.inquiry_file, "inq.bin");
    assert_eq!(cfg.rpc_file, "rpc.bin");
    assert_eq!(cfg.mode_2a_file, "");
    assert_eq!(cfg.feature_files, vec![(0x0108, "gc_0108.bin".to_string()), (0x010C, "gc_010c.bin".to_string())]);
    assert_eq!(cfg.rb_files, vec![(0xF1, "rb_f1.bin".to_string())]);
    assert_eq!(cfg.rpc_state_file().as_deref(), Some("rpc.bin"));
    assert_eq!(cfg.mode_2a_file_name(), "mode_2a.bin");
}

#[test]
fn drive_toml_defaults_and_crlf_lines() {
    let cfg = parse_drive_toml("[drive]\r\ncurrent_profile = 0x0010\r\n");
    assert_eq!(cfg.current_profile, 0x0010);
    assert_eq!(cfg.inquiry_file, "inquiry.bin");
    assert_eq!(cfg.name, "");
    let empty = parse_drive_toml("");
    assert_eq!(empty.current_profile, 0x0043);
    assert!(empty.rpc_state_file().is_none());
}

#[test]
fn features_are_sorted_and_empty_blobs_dropped() {
    let t = feature_table(vec![(0x010C, vec![3]), (0x0000, vec![1]), (0x0108, Vec::new()), (0x0000, vec![2])]);
    assert_eq!(t, vec![(0x0000, vec![1]), (0x0000, vec![2]), (0x010C, vec![3])]);
}

#[test]
fn scanned_read_buffers_only_add_new_ids() {
    let t = read_buffer_table(
        vec![(0xF1, vec![1]), (0x02, Vec::new()), (0xF1, vec![9])],
        vec![(0xF1, vec![5]), (0x03, vec![6]), (0x04, Vec::new()), (0x03, vec![7])],
    );
    assert_eq!(t, vec![(0xF1, vec![1]), (0xF1, vec![9]), (0x03, vec![6])]);
}

#[test]
fn profile_loads_with_every_blob_missing() {
    let cfg = parse_drive_toml(
        "[drive]\nproduct = \"BDR-S09\"\ncurrent_profile = 0x0043\n\
         [files]\ninquiry = \"inquiry.bin\"\nrpc_state = \"rpc_state.bin\"\n\
         [features]\n0x0108 = \"gc_0108.bin\"\n",
    );
    // Every file the drive.toml names is absent, so each reads as empty.
    let blobs = DirBlobs {
        inquiry: Vec::new(),
        features: vec![(0x0108, vec![])],
        rpc_state: Vec::new(),
        listed_bufs: Vec::new(),
        scanned_bufs: Vec::new(),
        mode_2a: Vec::new(),
    };
    let p = profile_from_dir(cfg, blobs, None);
    assert_eq!(p.name, "BDR-S09");
    assert_eq!(p.current_profile, 0x0043);
    assert!(p.inquiry.is_empty(), "absent inquiry.bin -> empty");
    assert!(p.rpc_state.is_empty(), "absent rpc_state.bin -> empty");
    assert!(p.mode_2a.is_empty(), "absent mode_2a.bin -> empty");
    assert!(p.features.is_empty(), "features with no file are dropped");
    assert!(p.find_feature(0x0108).is_none());
    assert!(p.read_bufs.is_empty());
    assert!(!p.has_disc(), "no disc selected -> no disc");
}

#[test]
fn json_invalid_feature_code_is_skipped_not_coerced_to_zero() {
    let features = vec![
        ("0x010C".to_string(), "010c0200deadbeef".to_string()),
        ("oops".to_string(), "00001234".to_string()),
    ];
    let p: LoadedProfile = profile_from_json("TEST".to_string(), "00", "0x0043", &features, &Vec::new(), None, None);
    assert!(p.features.iter().any(|(c, _)| *c == 0x010C), "valid feature 0x010C must be loaded");
    assert!(!p.features.iter().any(|(c, _)| *c == 0x0000), "invalid key must be skipped");
    assert_eq!(p.features.len(), 1);
    assert_eq!(p.find_feature(0x010C), Some(&[0x01u8, 0x0c, 0x02, 0x00, 0xde, 0xad, 0xbe, 0xef][..]));
}

#[test]
fn json_profile_fields_and_defaults() {
    let bufs = vec![("0xF1".to_string(), "aa bb".to_string()), ("bad".to_string(), "cc".to_string()), ("02".to_string(), "".to_string())];
    let p = profile_from_json("P".to_string(), "0102", "junk", &Vec::new(), &bufs, Some("0a".to_string()), None);
    assert_eq!(p.inquiry, vec![1, 2]);
    assert_eq!(p.current_profile, 0x0043, "an unparsable current profile falls back to BD-ROM");
    assert_eq!(p.read_bufs, vec![(0xF1, vec![0xaa, 0xbb])]);
    assert_eq!(p.rpc_state, vec![0x0a]);
    assert!(p.mode_2a.is_empty());
    assert_eq!(p.find_read_buf(0xF1), Some(&[0xaau8, 0xbb][..]));
}

#[test]
fn disc_blobs_become_a_disc() {
    let mut sectors = bdsm_header(1);
    sectors.extend_from_slice(&5u32.to_le_bytes());
    sectors.extend_from_slice(&1u32.to_le_bytes());
    sectors.extend_from_slice(&[0x11u8; 2048]);
    let d: DiscProfile = disc_from_blobs(DiscBlobs {
        toc: vec![1],
        capacity: vec![2],
        disc_info: vec![3],
        structures: vec![(0x00, vec![4]), (0x01, Vec::new()), (0x00, vec![5])],
        sector_data: Vec::new(),
        sectors,
    });
    let mut want = HashMap::new();
    want.insert(0x00u8, vec![5u8]);
    assert_eq!(d.disc_structures, want);
    assert_eq!(d.sector_map, vec![(5, 1, 20)]);
    assert_eq!((d.toc, d.capacity, d.disc_info), (vec![1], vec![2], vec![3]));
}

#[test]
fn profile_kinds() {
    assert_eq!(profile_kind("p", true), ProfileKind::Directory);
    assert_eq!(profile_kind("p.json", false), ProfileKind::Json);
    assert_eq!(profile_kind("p.toml", false), ProfileKind::Unknown);
    assert_eq!(profile_kind(".json", false), ProfileKind::Json);
}

#[test]
fn blob_filenames_cannot_escape_the_profile_directory() {
    let text = "[files]\ninquiry = \"../../../../etc/shadow\"\nrpc_state = /etc/passwd\nmode_2a = \"a\\b\"\n[features]\n0x0000 = gc_0000.bin\n0x0108 = \"..\"\n[read_buffer]\n0xF1 = \"rb/f1.bin\"\n0xF2 = rb_f2.bin\n";
    let cfg = parse_drive_toml(text);
    let plan = blob_plan(&cfg);
    assert!(plan.inquiry.is_none(), "an escaping inquiry name is absent");
    assert!(plan.rpc_state.is_none());
    assert!(plan.mode_2a.is_none());
    assert_eq!(plan.features, vec![(0x0000, "gc_0000.bin".to_string())]);
    assert_eq!(plan.read_buffers, vec![(0xF2, "rb_f2.bin".to_string())]);
    assert_eq!(
        plan.refused,
        vec!["../../../../etc/shadow", "..", "/etc/passwd", "rb/f1.bin", "a\\b"]
            .into_iter()
            .map(String::from)
            .collect::<Vec<_>>()
    );
    assert!(blob_name_ok("inquiry.bin"));
    assert!(!blob_name_ok(""));
    assert!(!blob_name_ok("a\0b"));
}

#[test]
fn a_plain_profile_plans_every_named_blob() {
    let plan = blob_plan(&parse_drive_toml("[files]\nrpc_state = rpc.bin\n"));
    assert_eq!(plan.inquiry.as_deref(), Some("inquiry.bin"));
    assert_eq!(plan.rpc_state.as_deref(), Some("rpc.bin"));
    assert_eq!(plan.mode_2a.as_deref(), Some("mode_2a.bin"));
    assert!(plan.refused.is_empty());
    let none = blob_plan(&parse_drive_toml(""));
    assert!(none.rpc_state.is_none(), "no RPC state file is read when none is named");
}

#[test]
fn firmware_date_comes_from_feature_010c() {
    let mut feature = vec![0x01u8, 0x0C, 0x02, 0x0C];
    feature.extend_from_slice(b" 2019123100 XYZ");
    let p = profile_from_json("P".to_string(), "", "", &Vec::new(), &Vec::new(), None, None);
    assert_eq!(p.firmware_date(), "");
    let mut p = p;
    p.features = vec![(0x010C, feature)];
    assert_eq!(p.firmware_date(), "2019123100");
    p.features = vec![(0x010C, vec![1, 2, 3, 4])];
    assert_eq!(p.firmware_date(), "");
    p.features = vec![(0x010C, vec![0, 0, 0, 0, 0xFF, b'7'])];
    assert_eq!(p.firmware_date(), "\u{FFFD}7");
}

#[test]
fn rejected_drive_toml_lines_add_nothing() {
    let cfg = parse_drive_toml("[drive]\ncurrent_profile = 0x1G\n[features]\nx = a.bin\n[read_buffer]\nq = b.bin\n");
    assert_eq!(cfg.current_profile, 0x0043);
    assert!(cfg.feature_files.is_empty());
    assert!(cfg.rb_files.is_empty());
}
