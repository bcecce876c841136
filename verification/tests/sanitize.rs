use bdemu::sanitize::{is_bidi_control, is_control, sanitize_for_terminal};

#[test]
fn escape_sequences_are_neutralised() {
    let hostile = "BDR\x1b[2J\x1b]0;pwned\x07";
    let clean = sanitize_for_terminal(hostile);
    assert!(!clean.contains('\x1b'), "ESC must not survive: {clean:?}");
    assert!(!clean.contains('\x07'), "BEL must not survive: {clean:?}");
    assert_eq!(clean, "BDR?[2J?]0;pwned?");
}

#[test]
fn newlines_del_and_c1_are_neutralised() {
    assert_eq!(sanitize_for_terminal("a\nb\r\tc"), "a?b??c");
    assert_eq!(sanitize_for_terminal("a\x7fb"), "a?b");
    assert_eq!(sanitize_for_terminal("a\u{9b}31mb"), "a?31mb");
}

#[test]
fn trojan_source_bidi_override_is_neutralised() {
    let hostile = "cmd.exe\u{202e}gpj.nrocinu";
    let clean = sanitize_for_terminal(hostile);
    assert!(!clean.contains('\u{202e}'), "RLO must not survive: {clean:?}");
    assert_eq!(clean, "cmd.exe?gpj.nrocinu");
}

#[test]
fn ordinary_text_is_untouched() {
    assert_eq!(sanitize_for_terminal("PIONEER BD-RW   BDR-S09"), "PIONEER BD-RW   BDR-S09");
    assert_eq!(sanitize_for_terminal("Amélie_2001"), "Amélie_2001");
    assert_eq!(sanitize_for_terminal(""), "");
}

#[test]
fn sanitising_twice_changes_nothing_more() {
    let once = sanitize_for_terminal("a\u{2066}b\u{1b}c\u{85}d");
    assert_eq!(once, "a?b?c?d");
    assert_eq!(sanitize_for_terminal(&once), once);
    assert_eq!(once.chars().count(), 7);
}

#[test]
fn character_classes_match_their_ranges() {
    assert!(is_control('\0'));
    assert!(is_control('\u{1f}'));
    assert!(!is_control(' '));
    assert!(is_control('\u{7f}'));
    assert!(is_control('\u{9f}'));
    assert!(!is_control('\u{a0}'));
    assert!(is_bidi_control('\u{200e}'));
    assert!(is_bidi_control('\u{202a}'));
    assert!(is_bidi_control('\u{2069}'));
    assert!(!is_bidi_control('\u{2065}'));
    assert!(!is_bidi_control('a'));
}
