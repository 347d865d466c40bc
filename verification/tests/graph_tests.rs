use brainjar::graph::sanitize_id;

#[test]
fn test_sanitize_id_lowercases() {
    assert_eq!(sanitize_id("Rust"), "rust");
}

#[test]
fn test_sanitize_id_replaces_special_chars() {
    assert_eq!(sanitize_id("notes/hello.md"), "notes_hello_md");
}

#[test]
fn test_sanitize_id_alphanumeric_unchanged() {
    assert_eq!(sanitize_id("abc123"), "abc123");
}
