use haptics::backend::{create, is_known};

#[test]
fn create_known_backends_succeed() {
    assert!(create("stdout").is_ok());
}

#[test]
fn create_unknown_backend_errors() {
    let err = create("nonexistent").err().expect("expected error");
    assert!(err.to_string().contains("nonexistent"), "{}", err.to_string());
}

#[test]
fn is_known_stdout() {
    assert!(is_known("stdout"));
    assert!(!is_known("nonexistent"));
    assert!(!is_known("STDOUT"));
}

#[test]
fn create_unknown_backend_message_is_exact() {
    let err = create("nfc").err().expect("expected error");
    assert_eq!(err.to_string(), "unknown backend: nfc");
    assert_eq!(err.name, "nfc");
}

#[test]
fn is_known_rejects_prefixes_and_extensions() {
    assert!(!is_known(""));
    assert!(!is_known("stdou"));
    assert!(!is_known("stdout "));
    assert!(!is_known("stdout/0"));
}
