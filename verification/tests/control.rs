use bdemu::cli::{classify_response, ControlOutcome};
use bdemu::control::{
    cmd_eject, cmd_load, cmd_status, disc_sector_count, frame_response, is_terminator, list_discs_response,
    parse_command, read_reply, reclaim_decision, request_of, Command, DiscState, EmulatorState, Reclaim, Response,
};
use bdemu::profile::{DiscProfile, LoadedProfile, SECTOR_SIZE};
use bdemu::scsi::ScsiState;
use std::collections::HashMap;

fn fixture() -> (LoadedProfile, EmulatorState, ScsiState) {
    let profile = LoadedProfile {
        name: "test".to_string(),
        inquiry: Vec::new(),
        current_profile: 0,
        features: Vec::new(),
        rpc_state: Vec::new(),
        read_bufs: Vec::new(),
        mode_2a: Vec::new(),
        disc: None,
    };
    let state = EmulatorState { profile_dir: "/nonexistent-bdemu-test-profile".to_string(), disc: DiscState::Empty };
    (profile, state, ScsiState::new())
}

fn flat_disc(sectors: usize) -> DiscProfile {
    DiscProfile {
        toc: Vec::new(),
        capacity: Vec::new(),
        disc_info: Vec::new(),
        disc_structures: HashMap::new(),
        sector_data: Vec::new(),
        sectors: vec![0xA5u8; sectors * SECTOR_SIZE],
        sector_map: Vec::new(),
    }
}

#[test]
fn cmd_load_rejects_empty_name() {
    let (mut profile, mut state, mut scsi) = fixture();
    let resp = cmd_load(&mut profile, &mut state, &mut scsi, "", None);
    assert_eq!(resp.lines, vec!["ERR usage: load <disc_name>".to_string()]);
}

#[test]
fn disc_sector_count_covers_flat_truncation_and_sparse_sum() {
    let mut flat = flat_disc(0);
    flat.sectors = vec![0u8; SECTOR_SIZE * 2 + 100];
    assert_eq!(disc_sector_count(&flat), 2, "a non-multiple length must truncate toward whole sectors");
    let mut sparse = flat_disc(0);
    sparse.sector_map = vec![(0, 10, 0), (100, 5, 0)];
    assert_eq!(disc_sector_count(&sparse), 15, "a BDSM sparse map must sum range counts");
}

#[test]
fn load_then_eject_round_trip() {
    let (mut profile, mut state, mut scsi) = fixture();
    let resp = cmd_load(&mut profile, &mut state, &mut scsi, "sample", Some(flat_disc(2)));
    assert_eq!(resp.lines, vec!["OK loaded 'sample' (2 sectors)".to_string()]);
    assert!(profile.disc.is_some(), "the disc must be swapped into the live profile");
    assert_eq!(state.disc.name(), Some("sample"));
    assert!(scsi.media_changed && scsi.new_media_event);
    assert!(cmd_status(&state).lines.iter().any(|l| l == "disc: loaded (sample)"), "status must show the loaded disc");

    // A name that did not resolve to a contained directory is refused and leaves the disc loaded.
    let bad = cmd_load(&mut profile, &mut state, &mut scsi, "../escape", None);
    assert_eq!(bad.lines, vec!["ERR invalid disc name".to_string()]);
    assert!(profile.disc.is_some(), "a rejected load must not eject");

    scsi.media_changed = false;
    let resp = cmd_eject(&mut profile, &mut state, &mut scsi);
    assert_eq!(resp.lines, vec!["OK ejected".to_string()]);
    assert!(profile.disc.is_none(), "eject must clear the disc from the profile");
    assert!(matches!(state.disc, DiscState::Empty));
    assert!(scsi.media_changed, "eject is a media change");
    assert_eq!(profile.name, "test");
}

#[test]
fn status_reports_profile_and_disc() {
    let (_, mut state, _) = fixture();
    assert_eq!(
        cmd_status(&state).lines,
        vec!["OK".to_string(), "profile: /nonexistent-bdemu-test-profile".to_string(), "disc: empty".to_string()]
    );
    state.disc = DiscState::Loaded(None);
    assert_eq!(cmd_status(&state).lines[2], "disc: loaded (unknown)");
}

#[test]
fn list_discs_marks_the_currently_loaded_disc() {
    let entries = vec![("alpha".to_string(), false), ("beta".to_string(), true)];
    let resp = list_discs_response(Some(&entries), Some("beta"));
    let body = resp.lines.join("\n");
    assert!(body.contains("beta * (sectors=true)"), "the loaded disc must carry the marker: {body}");
    assert!(body.contains("alpha (sectors=false)"), "a non-loaded disc must not carry the marker: {body}");
    assert_eq!(resp.lines[0], "OK");
}

#[test]
fn list_discs_sanitises_hostile_directory_names() {
    let hostile = "evil\u{1b}[2J\nOK forged".to_string();
    let entries = vec![(hostile, false)];
    let resp = list_discs_response(Some(&entries), None);
    let body = resp.lines.join("\n");
    assert!(!body.contains('\u{1b}'), "ESC must not reach the wire: {body:?}");
    assert!(resp.lines.len() == 2, "a name with a newline must not forge extra lines: {:?}", resp.lines);
    assert!(!resp.lines[1].contains('\n'));
}

#[test]
fn list_discs_without_a_discs_directory() {
    let resp = list_discs_response(None, None);
    assert_eq!(resp.lines, vec!["OK".to_string(), "no discs directory".to_string()]);
}

#[test]
fn normal_command_still_parses() {
    assert!(matches!(parse_command("status"), Some(Command::Status)));
    assert!(matches!(parse_command("eject"), Some(Command::Eject)));
    assert!(matches!(parse_command("list-discs"), Some(Command::ListDiscs)));
    match parse_command("load my disc") {
        Some(Command::Load(name)) => assert_eq!(name, "my disc"),
        _ => panic!("load must parse"),
    }
    match parse_command("load") {
        Some(Command::Load(name)) => assert_eq!(name, ""),
        _ => panic!("bare load must parse with an empty name"),
    }
    assert!(parse_command("statusx").is_none());
}

#[test]
fn dispatch_routes_every_verb_end_to_end() {
    assert!(matches!(request_of("status\n"), Ok(Command::Status)));
    assert!(matches!(request_of("  eject  \r\n"), Ok(Command::Eject)));
    assert!(matches!(request_of("list-discs\n"), Ok(Command::ListDiscs)));
    match request_of("load d1\n") {
        Ok(Command::Load(n)) => assert_eq!(n, "d1"),
        _ => panic!("load must dispatch"),
    }
    match request_of("frobnicate\n") {
        Err(resp) => assert_eq!(resp.lines, vec!["ERR unknown command: frobnicate".to_string()]),
        Ok(_) => panic!("unknown verbs must be refused"),
    }
}

#[test]
fn oversized_line_is_rejected_without_oom_or_panic() {
    let line = "A".repeat(1024);
    match request_of(&line) {
        Err(resp) => {
            assert!(resp.lines[0].starts_with("ERR unknown command:"));
            let wire = frame_response(&resp);
            let sent: usize = wire.iter().map(|l| l.len() + 1).sum();
            assert!(sent <= 1024 + 64, "reply should reflect the capped read, got {} bytes", sent);
        }
        Ok(_) => panic!("an over-long non-command must be refused"),
    }
}

#[test]
fn response_is_terminated_on_the_wire() {
    let resp = Response::ok("ejected");
    let wire = frame_response(&resp);
    assert_eq!(wire, vec!["OK ejected".to_string(), ".".to_string()]);
    assert!(is_terminator(&wire[1]));
    let (lines, terminated) = read_reply(&wire);
    assert!(terminated);
    assert_eq!(lines, resp.lines);
    assert_eq!(classify_response(&lines, terminated), ControlOutcome::Success);

    let cut = read_reply(&wire[..1]);
    assert!(!cut.1);
    assert_eq!(classify_response(&cut.0, cut.1), ControlOutcome::Truncated);

    let err = frame_response(&Response::error("invalid disc name"));
    let (lines, terminated) = read_reply(&err);
    assert_eq!(classify_response(&lines, terminated), ControlOutcome::Error);
}

#[test]
fn a_live_control_socket_is_never_stolen() {
    match reclaim_decision("/run/user/1/bdemu.sock", true, true) {
        Reclaim::Refuse(m) => assert_eq!(
            m,
            "/run/user/1/bdemu.sock is already in use by a running emulator; refusing to steal it. Set BDEMU_INSTANCE=<id> to give this instance its own socket."
        ),
        _ => panic!("a live peer must be refused"),
    }
}

#[test]
fn a_stale_control_socket_is_reclaimed() {
    assert!(matches!(reclaim_decision("/s", true, false), Reclaim::RemoveStale));
    assert!(matches!(reclaim_decision("/s", false, false), Reclaim::Free));
}
