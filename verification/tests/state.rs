use lagent::state::{compute_hash, hash_path, read_hash, state_dir, StateError};

#[test]
fn test_compute_hash_is_deterministic() {
    let h1 = compute_hash(b"hello");
    let h2 = compute_hash(b"hello");
    assert_eq!(h1, h2);
}

#[test]
fn test_compute_hash_differs_for_different_content() {
    assert_ne!(compute_hash(b"hello"), compute_hash(b"world"));
}

#[test]
fn test_read_hash_returns_none_when_missing() {
    let dir = state_dir(Some("/tmp/lagent-state".to_string()), None).unwrap();
    let path = hash_path(&dir, "com.example.nonexistent");
    assert_eq!(path, "/tmp/lagent-state/com.example.nonexistent.hash");
    let result = read_hash(None);
    assert!(result.is_none());
}

#[test]
fn stored_hash_reads_back() {
    let plist = b"<plist>test</plist>";
    let written = compute_hash(plist);
    let stored = read_hash(Some(written)).unwrap();
    let expected = compute_hash(plist);
    assert_eq!(stored, expected);
}

#[test]
fn absent_hash_file_reads_as_none() {
    let plist = b"<plist>test</plist>";
    assert!(read_hash(Some(compute_hash(plist))).is_some());
    assert!(read_hash(None).is_none());
}

#[test]
fn compute_hash_is_sha256_in_lower_hex() {
    assert_eq!(
        compute_hash(b"hello"),
        "2cf24dba5fb0a30e26e83b2ac5b9e29e1b161e5c1fa7425e73043362938b9824"
    );
    assert_eq!(
        compute_hash(b""),
        "e3b0c44298fc1c149afbf4c8996fb92427ae41e4649b934ca495991b7852b855"
    );
}

#[test]
fn read_hash_trims_the_stored_text() {
    assert_eq!(read_hash(Some("  abc\n".to_string())).unwrap(), "abc");
}

#[test]
fn state_dir_prefers_override_then_home() {
    assert_eq!(
        state_dir(Some("/x".to_string()), Some("/home/u".to_string())).unwrap(),
        "/x"
    );
    assert_eq!(
        state_dir(None, Some("/home/u".to_string())).unwrap(),
        "/home/u/.local/share/lagent"
    );
    match state_dir(None, None) {
        Err(e @ StateError::HomeNotSet) => {
            assert_eq!(e.message(), "HOME environment variable not set")
        }
        other => panic!("unexpected {:?}", other),
    }
}

#[test]
fn hash_path_joins_like_path_join() {
    assert_eq!(hash_path("/s/", "a"), "/s/a.hash");
    assert_eq!(hash_path("", "a"), "a.hash");
    assert_eq!(hash_path("/s", "/abs"), "/abs.hash");
}
