use bdemu::socket_name::{socket_filename, socket_path_from, MAX_INSTANCE_LEN, SOCKET_FILENAME};
use std::path::PathBuf;

#[test]
fn instance_id_yields_a_distinct_socket() {
    let a = socket_path_from(Some("/run/user/1000"), Some("drive-a")).expect("valid id");
    let b = socket_path_from(Some("/run/user/1000"), Some("drive_b")).expect("valid id");
    assert_ne!(a, b, "distinct instances must not share a socket");
    assert_eq!(PathBuf::from(a), PathBuf::from("/run/user/1000/bdemu-drive-a.sock"));
}

#[test]
fn default_instance_keeps_the_historical_name() {
    assert_eq!(
        PathBuf::from(socket_path_from(Some("/run/user/1000"), None).unwrap()),
        PathBuf::from("/run/user/1000").join(SOCKET_FILENAME)
    );
    assert_eq!(
        PathBuf::from(socket_path_from(Some("/run/user/1000"), Some("")).unwrap()),
        PathBuf::from("/run/user/1000").join(SOCKET_FILENAME)
    );
}

#[test]
fn hostile_instance_ids_are_rejected() {
    for bad in ["../evil", "a/b", "a\\b", "a b", "a\0b", "a.sock", "café"] {
        assert!(socket_filename(Some(bad)).is_err(), "instance id {bad:?} must be rejected");
    }
    let long = "a".repeat(MAX_INSTANCE_LEN + 1);
    assert!(socket_filename(Some(&long)).is_err());
    assert!(socket_filename(Some(&"a".repeat(MAX_INSTANCE_LEN))).is_ok());
}

#[test]
fn insecure_tmp_fallback_is_refused() {
    let err = socket_path_from(None, None).expect_err("None must be refused");
    assert!(err.contains("XDG_RUNTIME_DIR"), "got: {err}");
    assert!(socket_path_from(Some(""), None).is_err(), "empty refused");
}

#[test]
fn cli_socket_path_uses_the_shared_policy() {
    let p = socket_path_from(Some("/run/user/1000"), None).expect("must accept a runtime dir");
    assert_eq!(PathBuf::from(p), PathBuf::from("/run/user/1000").join(SOCKET_FILENAME));
    assert!(socket_path_from(None, None).is_err(), "unset XDG_RUNTIME_DIR must be refused, not silently /tmp");
}

#[test]
fn instance_error_messages_name_the_problem() {
    let long = "b".repeat(65);
    assert_eq!(
        socket_filename(Some(&long)).unwrap_err(),
        "BDEMU_INSTANCE is too long (65 chars, max 64)"
    );
    assert_eq!(
        socket_filename(Some("a/b")).unwrap_err(),
        "BDEMU_INSTANCE 'a/b' is not a valid instance id: use only ASCII letters, digits, '-' and '_'"
    );
    assert_eq!(socket_filename(Some("x1")).unwrap(), "bdemu-x1.sock");
    assert_eq!(socket_filename(None).unwrap(), "bdemu.sock");
}

#[test]
fn a_runtime_dir_with_a_trailing_slash_gets_no_double_slash() {
    assert_eq!(socket_path_from(Some("/run/user/7/"), Some("q")).unwrap(), "/run/user/7/bdemu-q.sock");
    assert_eq!(socket_path_from(Some("/run/user/7"), Some("q")).unwrap(), "/run/user/7/bdemu-q.sock");
}
