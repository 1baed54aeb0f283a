use job_tracker_backend::services::cache::PersistentTier;

#[test]
fn upsert_then_get() {
    let mut store = PersistentTier::new();
    assert!(store.upsert("k", "v", 1_000).is_ok());
    assert_eq!(store.get("k", 999).ok(), Some(Some("v".to_string())));
}

#[test]
fn upsert_replaces_value_and_expiry() {
    let mut store = PersistentTier::new();
    store.upsert("k", "v1", 1_000).unwrap();
    store.upsert("k", "v2", 50).unwrap();
    assert_eq!(store.len(), 1);
    assert_eq!(store.get("k", 10).ok(), Some(Some("v2".to_string())));
    assert_eq!(store.get("k", 50).ok(), Some(None));
}

#[test]
fn get_passes_over_expired_record_without_deleting() {
    let mut store = PersistentTier::new();
    store.upsert("k", "v", 1_000).unwrap();
    assert_eq!(store.get("k", 1_000).ok(), Some(None));
    assert_eq!(store.get("k", 2_000).ok(), Some(None));
    assert_eq!(store.len(), 1);
}

#[test]
fn delete_is_quiet_on_absent_key() {
    let mut store = PersistentTier::new();
    store.upsert("k", "v", 1_000).unwrap();
    assert!(store.delete("other").is_ok());
    assert_eq!(store.len(), 1);
    assert!(store.delete("k").is_ok());
    assert_eq!(store.len(), 0);
}

#[test]
fn delete_matching_counts_rows() {
    let mut store = PersistentTier::new();
    store.upsert("metrics_7d", "a", 1_000).unwrap();
    store.upsert("metrics_30d", "b", 1_000).unwrap();
    store.upsert("analytics", "c", 1_000).unwrap();
    assert_eq!(store.delete_matching("metrics").ok(), Some(2));
    assert_eq!(store.len(), 1);
    assert_eq!(store.delete_matching("metrics").ok(), Some(0));
}

#[test]
fn delete_matching_treats_underscore_as_any_character() {
    let mut store = PersistentTier::new();
    store.upsert("a_b", "1", 1_000).unwrap();
    store.upsert("axb", "2", 1_000).unwrap();
    store.upsert("ab", "3", 1_000).unwrap();
    assert_eq!(store.delete_matching("a_b").ok(), Some(2));
    assert_eq!(store.get("ab", 0).ok(), Some(Some("3".to_string())));
}

#[test]
fn delete_matching_treats_percent_as_any_run() {
    let mut store = PersistentTier::new();
    store.upsert("user:1:profile", "1", 1_000).unwrap();
    store.upsert("user:profile", "2", 1_000).unwrap();
    store.upsert("profile:user", "3", 1_000).unwrap();
    assert_eq!(store.delete_matching("user%profile").ok(), Some(2));
    assert_eq!(store.len(), 1);
    assert_eq!(store.get("profile:user", 0).ok(), Some(Some("3".to_string())));
}

#[test]
fn delete_matching_empty_pattern_clears() {
    let mut store = PersistentTier::new();
    store.upsert("a", "1", 1_000).unwrap();
    store.upsert("", "2", 1_000).unwrap();
    assert_eq!(store.delete_matching("").ok(), Some(2));
    assert_eq!(store.len(), 0);
}

#[test]
fn sweep_removes_expired_rows() {
    let mut store = PersistentTier::new();
    store.upsert("a", "1", 100).unwrap();
    store.upsert("b", "2", 200).unwrap();
    store.upsert("c", "3", 201).unwrap();
    assert_eq!(store.sweep_expired(200).ok(), Some(2));
    assert_eq!(store.len(), 1);
}

#[test]
fn stats_counts_total_and_expired() {
    let mut store = PersistentTier::new();
    store.upsert("a", "1", 100).unwrap();
    store.upsert("b", "2", 200).unwrap();
    store.upsert("c", "3", 300).unwrap();
    assert_eq!(store.stats(0).ok(), Some((3, 0)));
    assert_eq!(store.stats(200).ok(), Some((3, 2)));
    assert_eq!(store.stats(1_000).ok(), Some((3, 3)));
}

#[test]
fn outage_fails_every_request_and_changes_nothing() {
    let mut store = PersistentTier::new();
    store.upsert("a", "1", 100).unwrap();
    store.set_available(false);
    assert!(!store.is_available());
    let message = "persistent tier unavailable";
    assert_eq!(store.upsert("b", "2", 100).unwrap_err().message, message);
    assert_eq!(store.get("a", 0).unwrap_err().message, message);
    assert_eq!(store.delete("a").unwrap_err().message, message);
    assert_eq!(store.delete_matching("a").unwrap_err().message, message);
    assert_eq!(store.sweep_expired(1_000).unwrap_err().message, message);
    assert_eq!(store.stats(0).unwrap_err().message, message);
    assert_eq!(store.len(), 1);
    store.set_available(true);
    assert_eq!(store.get("a", 0).ok(), Some(Some("1".to_string())));
}
