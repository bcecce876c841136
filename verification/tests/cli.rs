use bdemu::cli::{
    classify_blob, classify_response, disc_passes, exit_code_from, feature_annotation, flag_value,
    inquiry_summary, is_feature_file, load_command, parse_run_args, profile_verdict, response_is_error, BlobState,
    ControlOutcome, FeatureFact, InquiryFact, ProfileFacts, StatError,
};

fn s(v: &str) -> String {
    v.to_string()
}

#[test]
fn ok_response_is_success() {
    assert!(!response_is_error(&["OK ejected".to_string()]));
    assert!(!response_is_error(&["OK".to_string(), "profile: /x".to_string(), "disc: empty".to_string()]));
}

#[test]
fn err_response_is_failure() {
    assert!(response_is_error(&["ERR disc not found".to_string()]));
    assert!(response_is_error(&["ERR invalid disc name".to_string()]));
    assert!(response_is_error(&["OK".to_string(), "ERR something".to_string()]));
}

#[test]
fn empty_or_garbage_response_is_failure() {
    assert!(response_is_error(&[]));
    assert!(response_is_error(&["unexpected".to_string()]));
}

#[test]
fn zero_byte_blob_is_a_failure_not_a_pass() {
    assert_eq!(classify_blob(Ok(0)), BlobState::Empty);
    assert!(classify_blob(Ok(0)).is_broken(), "an interrupted capture must fail validate");
    assert!(classify_blob(Ok(0)).describe().contains("0 bytes"));

    assert_eq!(classify_blob(Ok(204800)), BlobState::Present(204800));
    assert!(!classify_blob(Ok(204800)).is_broken());
    assert!(classify_blob(Ok(204800)).describe().contains("204800"), "the size must be reported");

    assert_eq!(classify_blob(Err(StatError::NotFound)), BlobState::Missing);
    assert!(!classify_blob(Err(StatError::NotFound)).is_broken());

    assert_eq!(classify_blob(Err(StatError::Other)), BlobState::Unreadable);
    assert!(classify_blob(Err(StatError::Other)).is_broken());
}

#[test]
fn blob_descriptions_are_exact() {
    assert_eq!(BlobState::Missing.describe(), "missing");
    assert_eq!(BlobState::Empty.describe(), "EMPTY (0 bytes — interrupted capture?)");
    assert_eq!(BlobState::Present(12).describe(), "12 bytes");
    assert_eq!(BlobState::Unreadable.describe(), "UNREADABLE");
    assert!(disc_passes(&BlobState::Present(1), &BlobState::Missing));
    assert!(!disc_passes(&BlobState::Present(1), &BlobState::Empty));
}

#[test]
fn missing_terminator_is_truncation_even_if_it_starts_ok() {
    assert_eq!(classify_response(&[s("OK"), s("  disc-a (sectors=true)")], true), ControlOutcome::Success);
    assert_eq!(classify_response(&[s("ERR disc not found")], true), ControlOutcome::Error);
    assert_eq!(classify_response(&[s("OK"), s("  disc-a (sectors=true)")], false), ControlOutcome::Truncated);
    assert_eq!(classify_response(&[], false), ControlOutcome::Truncated);
    assert_eq!(classify_response(&[], true), ControlOutcome::Error);
}

#[test]
fn flag_value_rejects_a_following_flag_and_missing_value() {
    let args = vec![s("bdemu"), s("run"), s("--profile"), s("mydir")];
    assert_eq!(flag_value(&args, 3), Some(&s("mydir")), "a plain value is taken");
    let swallow = vec![s("bdemu"), s("run"), s("--profile"), s("--disc")];
    assert_eq!(flag_value(&swallow, 3), None, "a value that looks like a flag must be refused");
    assert_eq!(flag_value(&args, 99), None);
}

#[test]
fn parse_run_args_covers_the_flag_scan() {
    let a = ["bdemu", "run", "--profile", "p", "--disc", "d", "--", "cmd", "arg"].map(s).to_vec();
    let r = parse_run_args(&a).expect("well-formed");
    assert_eq!(r.profile.as_deref(), Some("p"));
    assert_eq!(r.disc.as_deref(), Some("d"));
    assert_eq!(r.cmd_start, 7, "cmd_start points just past `--`");

    let b = ["bdemu", "run", "-p", "p", "cmd", "arg"].map(s).to_vec();
    let r = parse_run_args(&b).expect("well-formed");
    assert_eq!(r.profile.as_deref(), Some("p"));
    assert!(r.disc.is_none());
    assert_eq!(r.cmd_start, 4);

    let c = ["bdemu", "run", "cmd"].map(s).to_vec();
    let r = parse_run_args(&c).expect("well-formed");
    assert!(r.profile.is_none());
    assert_eq!(r.cmd_start, 2);

    let d = ["bdemu", "run", "--profile", "--disc", "x"].map(s).to_vec();
    assert!(matches!(parse_run_args(&d), Err("--profile")), "a missing value is an error naming the flag");
}

#[test]
fn run_args_edge_cases() {
    let e = ["bdemu", "run", "-d"].map(s).to_vec();
    assert!(matches!(parse_run_args(&e), Err("--disc")));
    let f = ["bdemu", "run", "-p", "x"].map(s).to_vec();
    let r = parse_run_args(&f).expect("well-formed");
    assert_eq!(r.cmd_start, 0, "no command found");
}

#[test]
fn exit_code_for_distinguishes_signals_from_normal_exit() {
    assert_eq!(exit_code_from(Some(0), None), 0, "clean exit");
    assert_eq!(exit_code_from(Some(5), None), 5, "exit code 5");
    assert_eq!(exit_code_from(None, Some(9)), 128 + 9, "SIGKILL must be 137, not a bare 1");
    assert_eq!(exit_code_from(None, Some(11)), 128 + 11, "SIGSEGV must be 139");
    assert_eq!(exit_code_from(None, None), 1);
}

#[test]
fn load_command_refuses_control_characters() {
    assert_eq!(load_command("disc a").unwrap(), "load disc a");
    assert_eq!(
        load_command("a\nb").unwrap_err(),
        "Error: disc name contains an illegal control character (U+000A)"
    );
    assert_eq!(
        load_command("x\u{9b}").unwrap_err(),
        "Error: disc name contains an illegal control character (U+009B)"
    );
}

#[test]
fn inquiry_names_are_trimmed_and_sanitised() {
    let mut inq = vec![0u8; 96];
    inq[8..16].copy_from_slice(b"PIONEER ");
    inq[16..32].copy_from_slice(b"BD-RW  BDR\x1b[2J  ");
    let (vendor, product) = inquiry_summary(&inq).expect("96 bytes");
    assert_eq!(vendor, "PIONEER");
    assert_eq!(product, "BD-RW  BDR?[2J");
    assert!(inquiry_summary(&vec![0u8; 95]).is_none());
    let mut bad = vec![0x20u8; 96];
    bad[8] = 0xFF;
    assert_eq!(inquiry_summary(&bad).unwrap().0, "?");
}

#[test]
fn feature_notes_show_date_or_serial() {
    let mut fw = vec![0u8, 0, 0, 0];
    fw.extend_from_slice(b"201912310000XYZ");
    assert_eq!(feature_annotation(0x010C, &fw), " — date: 201912310000");
    let mut serial = vec![0u8, 0, 0, 0];
    serial.extend_from_slice(b"  SN123 \x07");
    assert_eq!(feature_annotation(0x0108, &serial), " — serial: SN123 ?");
    assert_eq!(feature_annotation(0x0108, &vec![1, 2, 3, 4]), "");
}

#[test]
fn validate_verdict_needs_every_required_blob() {
    let good = ProfileFacts {
        drive_toml_exists: true,
        inquiry: InquiryFact::Complete,
        features: vec![FeatureFact::Present, FeatureFact::Present, FeatureFact::Present],
        features_listed: true,
        discs_dir_exists: false,
        discs_listed: false,
        discs: Vec::new(),
    };
    assert_eq!(profile_verdict(&good), (true, 1));
    let broken_disc = ProfileFacts {
        discs_dir_exists: true,
        discs_listed: true,
        discs: vec![(BlobState::Present(4), BlobState::Empty)],
        ..good
    };
    assert_eq!(profile_verdict(&broken_disc), (false, 0));
    let missing = ProfileFacts {
        drive_toml_exists: true,
        inquiry: InquiryFact::WrongLength,
        features: vec![FeatureFact::Present, FeatureFact::Missing],
        features_listed: true,
        discs_dir_exists: true,
        discs_listed: true,
        discs: Vec::new(),
    };
    assert_eq!(profile_verdict(&missing), (false, 1));
}

#[test]
fn feature_files_are_counted_by_name() {
    assert!(is_feature_file("gc_0000.bin"));
    assert!(!is_feature_file("gc_0000.txt"));
    assert!(!is_feature_file("rb_f1.bin"));
    assert!(is_feature_file("gc_.bin"));
}

#[test]
fn required_features_are_the_three_validate_checks() {
    let r = bdemu::cli::required_features();
    assert_eq!(
        r,
        vec![
            ("gc_0000.bin", 0x0000u16, "Profile List", false),
            ("gc_0108.bin", 0x0108u16, "Serial Number", true),
            ("gc_010c.bin", 0x010Cu16, "Firmware Information", true),
        ]
    );
}
