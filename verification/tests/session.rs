use termdeck::session::{
    check_terminal_input, pty_dimension, session_file_stem, validate_session_id, MAX_INPUT_BYTES,
};

#[test]
fn accepts_safe_session_ids() {
    assert!(validate_session_id("term_abc-123").is_ok());
}

#[test]
fn rejects_unsafe_session_ids() {
    assert!(validate_session_id("../terminal").is_err());
    assert!(validate_session_id("").is_err());
}

#[test]
fn session_id_length_limit_is_one_hundred_bytes() {
    assert!(validate_session_id(&"a".repeat(100)).is_ok());
    assert_eq!(
        validate_session_id(&"a".repeat(101)),
        Err("Invalid terminal session ID".to_string())
    );
    assert!(validate_session_id("caf\u{e9}").is_err());
    assert!(validate_session_id("a b").is_err());
    assert!(validate_session_id("ABC_xyz-09").is_ok());
}

#[test]
fn terminal_input_is_checked_after_the_session_id() {
    assert_eq!(check_terminal_input("term_1", "ls\r"), Ok(()));
    let big = "x".repeat(MAX_INPUT_BYTES + 1);
    assert_eq!(
        check_terminal_input("term_1", &big),
        Err("Terminal input was too large".to_string())
    );
    assert_eq!(
        check_terminal_input("../bad", &big),
        Err("Invalid terminal session ID".to_string())
    );
    assert_eq!(check_terminal_input("term_1", &"x".repeat(MAX_INPUT_BYTES)), Ok(()));
}

#[test]
fn pty_dimensions_are_clamped() {
    assert_eq!(pty_dimension(0), 2);
    assert_eq!(pty_dimension(1), 2);
    assert_eq!(pty_dimension(2), 2);
    assert_eq!(pty_dimension(80), 80);
    assert_eq!(pty_dimension(500), 500);
    assert_eq!(pty_dimension(u16::MAX), 500);
}

#[test]
fn session_file_stem_names_session_and_generation() {
    assert_eq!(session_file_stem("term_test", 1), "termdeck-term_test-1");
    assert_eq!(session_file_stem("a", 0), "termdeck-a-0");
    assert_eq!(
        session_file_stem("x", u64::MAX),
        format!("termdeck-x-{}", u64::MAX)
    );
    assert_eq!(session_file_stem("x", 1234567890), "termdeck-x-1234567890");
}

#[test]
fn accepted_session_ids_are_plain_file_names() {
    for id in ["term_1", "a", "A-b_C", "../etc", "a/b", "a\\b", "a.b", "a b", "\u{0661}", ""] {
        if validate_session_id(id).is_ok() {
            assert!(id.chars().all(|c| c.is_ascii_alphanumeric() || c == '_' || c == '-'), "{id:?}");
            assert!(!session_file_stem(id, 3).contains(['/', '\\', '.', ' ']));
        }
    }
    assert!(validate_session_id("\u{0661}").is_err());
}
