use ghdash::cache::{decode_entry, sanitize_key, CacheStore};

#[test]
fn test_entry_round_trip() {
    let content = CacheStore::encode_entry(1_700_000_000, "[\"hello\",\"world\"]");
    assert_eq!(
        content,
        "{\"timestamp\":1700000000,\"data\":[\"hello\",\"world\"]}"
    );
    let (ts, payload) = decode_entry(&content).unwrap();
    assert_eq!(ts, 1_700_000_000);
    assert_eq!(payload, "[\"hello\",\"world\"]");
}

#[test]
fn test_entry_round_trip_empty_payload() {
    let content = CacheStore::encode_entry(0, "");
    let (ts, payload) = decode_entry(&content).unwrap();
    assert_eq!(ts, 0);
    assert_eq!(payload, "");
}

#[test]
fn test_entry_round_trip_payload_with_braces() {
    let content = CacheStore::encode_entry(42, "{\"n\":7}");
    let (ts, payload) = decode_entry(&content).unwrap();
    assert_eq!(ts, 42);
    assert_eq!(payload, "{\"n\":7}");
}

#[test]
fn test_corrupted_entry_decodes_to_none() {
    assert!(decode_entry("not valid json!!!").is_none());
    assert!(decode_entry("").is_none());
    assert!(decode_entry("{\"timestamp\":,\"data\":1}").is_none());
    assert!(decode_entry("{\"timestamp\":12").is_none());
    assert!(decode_entry("{\"timestamp\":12,\"data\":x").is_none());
}

#[test]
fn test_fresh_entry_within_ttl() {
    let store = CacheStore::new(".cache".into(), 60);
    let content = CacheStore::encode_entry(1000, "\"value\"");
    // age exactly at the time-to-live is still fresh
    assert_eq!(store.read_entry(&content, 1060), Some("\"value\"".into()));
    assert_eq!(store.read_entry(&content, 1000), Some("\"value\"".into()));
}

#[test]
fn test_expired_entry_reads_as_none() {
    let store = CacheStore::new(".cache".into(), 60);
    let content = CacheStore::encode_entry(1000, "\"value\"");
    // one second past the time-to-live the entry is absent
    assert_eq!(store.read_entry(&content, 1061), None);
}

#[test]
fn test_entry_from_the_future_reads_as_none() {
    let store = CacheStore::new(".cache".into(), 60);
    let content = CacheStore::encode_entry(2000, "\"value\"");
    assert_eq!(store.read_entry(&content, 1999), None);
}

#[test]
fn test_zero_ttl_boundary() {
    // age zero is not past a zero time-to-live; age one is
    let store = CacheStore::new(".cache".into(), 0);
    let content = CacheStore::encode_entry(1000, "1");
    assert_eq!(store.read_entry(&content, 1000), Some("1".into()));
    assert_eq!(store.read_entry(&content, 1001), None);
}

#[test]
fn test_key_sanitization() {
    assert_eq!(sanitize_key("org/repo"), "org_repo");
    assert_eq!(sanitize_key("a\\b/c"), "a_b_c");
    assert_eq!(sanitize_key("plain"), "plain");
}

#[test]
fn test_path_for_key() {
    let store = CacheStore::new("/tmp/store".into(), 600);
    assert_eq!(store.path_for_key("org_repos_acme"), "/tmp/store/org_repos_acme.json");
    assert_eq!(store.path_for_key("inbox_a/b"), "/tmp/store/inbox_a_b.json");
}
