use brainjar::sync::hash_content;

#[test]
fn db_test_hash_content_deterministic() {
    let h1 = hash_content(b"hello world");
    let h2 = hash_content(b"hello world");
    assert_eq!(h1, h2);
}

#[test]
fn test_hash_content_different_inputs() {
    let h1 = hash_content(b"hello");
    let h2 = hash_content(b"world");
    assert_ne!(h1, h2);
}

#[test]
fn test_hash_content_is_hex_string() {
    let h = hash_content(b"test");
    assert_eq!(h.len(), 64);
    assert!(h.chars().all(|c| c.is_ascii_hexdigit()));
}

#[test]
fn sync_test_hash_content_deterministic() {
    let h1 = hash_content(b"hello");
    let h2 = hash_content(b"hello");
    assert_eq!(h1, h2);
}

#[test]
fn test_hash_content_different_inputs_differ() {
    assert_ne!(hash_content(b"a"), hash_content(b"b"));
}

#[test]
fn sync_test_hash_content_is_64_hex_chars() {
    let h = hash_content(b"test data");
    assert_eq!(h.len(), 64);
    assert!(h.chars().all(|c| c.is_ascii_hexdigit()));
}

#[test]
fn test_hash_content_is_deterministic() {
    let data = b"brainjar hash test content";
    assert_eq!(hash_content(data), hash_content(data));
}

#[test]
fn test_hash_content_differs_for_different_inputs() {
    assert_ne!(hash_content(b"v1"), hash_content(b"v2"));
}

#[test]
fn integration_test_hash_content_is_64_hex_chars() {
    let h = hash_content(b"some data");
    assert_eq!(h.len(), 64);
    assert!(h.chars().all(|c| c.is_ascii_hexdigit()));
}

#[test]
fn test_hash_content_empty_is_valid() {
    let h = hash_content(b"");
    assert_eq!(h.len(), 64);
}

#[test]
fn test_hash_content_known_value() {
    assert_eq!(
        hash_content(b"abc"),
        "ba7816bf8f01cfea414140de5dae2223b00361a396177a9cb410ff61f20015ad"
    );
}
