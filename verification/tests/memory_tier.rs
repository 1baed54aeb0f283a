use job_tracker_backend::services::cache::MemoryTier;

#[test]
fn lookup_returns_live_value() {
    let mut tier = MemoryTier::new(4);
    tier.insert("k", "v", 1_000, 5_000);
    assert_eq!(tier.lookup("k", 5_000), Some("v".to_string()));
    assert_eq!(tier.lookup("k", 5_999), Some("v".to_string()));
}

#[test]
fn lookup_counts_hits() {
    let mut tier = MemoryTier::new(4);
    tier.insert("k", "v", 1_000, 0);
    tier.insert("j", "w", 1_000, 0);
    assert_eq!(tier.total_hits(), 0);
    tier.lookup("k", 1);
    tier.lookup("k", 2);
    tier.lookup("j", 3);
    tier.lookup("absent", 3);
    assert_eq!(tier.total_hits(), 3);
}

#[test]
fn lookup_at_expiry_is_a_miss_and_removes() {
    let mut tier = MemoryTier::new(4);
    tier.insert("k", "v", 1_000, 5_000);
    assert_eq!(tier.len(), 1);
    assert_eq!(tier.lookup("k", 6_000), None);
    assert_eq!(tier.len(), 0);
    assert!(!tier.contains_key("k"));
}

#[test]
fn expired_entry_stays_until_touched() {
    let mut tier = MemoryTier::new(4);
    tier.insert("k", "v", 10, 0);
    tier.insert("other", "w", 10_000, 0);
    assert_eq!(tier.lookup("other", 5_000), Some("w".to_string()));
    assert_eq!(tier.len(), 2);
    assert!(tier.contains_key("k"));
}

#[test]
fn lookup_of_absent_key_changes_nothing() {
    let mut tier = MemoryTier::new(4);
    tier.insert("k", "v", 10, 0);
    assert_eq!(tier.lookup("missing", 1), None);
    assert_eq!(tier.len(), 1);
    assert_eq!(tier.total_hits(), 0);
}

#[test]
fn insert_evicts_oldest_when_full() {
    let mut tier = MemoryTier::new(2);
    tier.insert("a", "1", 1_000, 100);
    tier.insert("b", "2", 1_000, 101);
    tier.insert("c", "3", 1_000, 102);
    assert_eq!(tier.len(), 2);
    assert!(!tier.contains_key("a"));
    assert!(tier.contains_key("b"));
    assert!(tier.contains_key("c"));
}

#[test]
fn eviction_goes_by_created_at_not_by_position() {
    let mut tier = MemoryTier::new(3);
    tier.insert("late", "1", 1_000, 300);
    tier.insert("early", "2", 1_000, 100);
    tier.insert("mid", "3", 1_000, 200);
    tier.insert("new", "4", 1_000, 400);
    assert!(!tier.contains_key("early"));
    assert!(tier.contains_key("late"));
    assert!(tier.contains_key("mid"));
    assert!(tier.contains_key("new"));
}

#[test]
fn eviction_ignores_recency_of_use() {
    let mut tier = MemoryTier::new(2);
    tier.insert("a", "1", 10_000, 100);
    tier.insert("b", "2", 10_000, 200);
    tier.lookup("a", 250);
    tier.lookup("a", 260);
    tier.insert("c", "3", 10_000, 300);
    assert!(!tier.contains_key("a"));
    assert!(tier.contains_key("b"));
}

#[test]
fn eviction_among_equal_ages_takes_the_first() {
    let mut tier = MemoryTier::new(2);
    tier.insert("a", "1", 1_000, 100);
    tier.insert("b", "2", 1_000, 100);
    tier.insert("c", "3", 1_000, 100);
    assert!(!tier.contains_key("a"));
    assert!(tier.contains_key("b"));
    assert!(tier.contains_key("c"));
}

#[test]
fn overwrite_does_not_evict() {
    let mut tier = MemoryTier::new(2);
    tier.insert("a", "1", 1_000, 100);
    tier.insert("b", "2", 1_000, 101);
    tier.insert("a", "3", 1_000, 102);
    assert_eq!(tier.len(), 2);
    assert!(tier.contains_key("b"));
    assert_eq!(tier.lookup("a", 102), Some("3".to_string()));
}

#[test]
fn overwrite_refreshes_created_at_and_hits() {
    let mut tier = MemoryTier::new(2);
    tier.insert("a", "1", 1_000, 100);
    tier.insert("b", "2", 1_000, 200);
    tier.lookup("a", 201);
    assert_eq!(tier.total_hits(), 1);
    tier.insert("a", "1b", 1_000, 300);
    assert_eq!(tier.total_hits(), 0);
    tier.insert("c", "3", 1_000, 400);
    assert!(tier.contains_key("a"));
    assert!(!tier.contains_key("b"));
}

#[test]
fn capacity_is_never_exceeded() {
    let mut tier = MemoryTier::new(3);
    let keys = ["a", "b", "c", "d", "a", "e", "f", "b", "g", "h", "c"];
    let mut now: u64 = 1;
    for k in keys.iter() {
        tier.insert(k, "v", 50, now);
        assert!(tier.len() <= 3);
        now += 7;
    }
    assert_eq!(tier.len(), 3);
    assert_eq!(tier.capacity(), 3);
}

#[test]
fn capacity_zero_holds_nothing() {
    let mut tier = MemoryTier::new(0);
    tier.insert("a", "1", 1_000, 100);
    assert_eq!(tier.len(), 0);
    assert!(!tier.contains_key("a"));
    assert_eq!(tier.lookup("a", 100), None);
    tier.insert("b", "2", 1_000, 101);
    tier.insert("a", "3", 1_000, 102);
    assert_eq!(tier.len(), 0);
    assert_eq!(tier.capacity(), 0);
    assert_eq!(tier.remove_matching(""), 0);
    assert_eq!(tier.sweep_expired(u64::MAX), 0);
    assert_eq!(tier.total_hits(), 0);
}

#[test]
fn remove_is_unconditional() {
    let mut tier = MemoryTier::new(4);
    tier.insert("a", "1", 1_000, 100);
    tier.remove("a");
    assert_eq!(tier.len(), 0);
    tier.remove("a");
    tier.remove("never");
    assert_eq!(tier.len(), 0);
}

#[test]
fn remove_matching_is_not_anchored() {
    let mut tier = MemoryTier::new(8);
    tier.insert("user:1:profile", "1", 1_000, 100);
    tier.insert("profile:user", "2", 1_000, 101);
    tier.insert("team:1", "3", 1_000, 102);
    tier.insert("xuserx", "4", 1_000, 103);
    assert_eq!(tier.remove_matching("user"), 3);
    assert_eq!(tier.len(), 1);
    assert!(tier.contains_key("team:1"));
}

#[test]
fn remove_matching_takes_wildcards_literally() {
    let mut tier = MemoryTier::new(8);
    tier.insert("a_b", "1", 1_000, 100);
    tier.insert("axb", "2", 1_000, 101);
    tier.insert("a%b", "3", 1_000, 102);
    assert_eq!(tier.remove_matching("a_b"), 1);
    assert!(tier.contains_key("axb"));
    assert_eq!(tier.remove_matching("%"), 1);
    assert!(tier.contains_key("axb"));
    assert_eq!(tier.len(), 1);
}

#[test]
fn remove_matching_empty_pattern_clears() {
    let mut tier = MemoryTier::new(8);
    tier.insert("a", "1", 1_000, 100);
    tier.insert("b", "2", 1_000, 101);
    assert_eq!(tier.remove_matching(""), 2);
    assert_eq!(tier.len(), 0);
}

#[test]
fn remove_matching_handles_non_ascii_keys() {
    let mut tier = MemoryTier::new(8);
    tier.insert("отчёт:мск", "1", 1_000, 100);
    tier.insert("report:msk", "2", 1_000, 101);
    assert_eq!(tier.remove_matching("мск"), 1);
    assert!(tier.contains_key("report:msk"));
}

#[test]
fn sweep_removes_what_expired_by_now() {
    let mut tier = MemoryTier::new(8);
    tier.insert("a", "1", 100, 0);
    tier.insert("b", "2", 200, 0);
    tier.insert("c", "3", 300, 0);
    assert_eq!(tier.sweep_expired(200), 2);
    assert_eq!(tier.len(), 1);
    assert!(tier.contains_key("c"));
    assert_eq!(tier.sweep_expired(200), 0);
}

#[test]
fn sweep_keeps_order_for_later_eviction() {
    let mut tier = MemoryTier::new(3);
    tier.insert("a", "1", 10, 5);
    tier.insert("b", "2", 1_000, 5);
    tier.insert("c", "3", 1_000, 5);
    assert_eq!(tier.sweep_expired(20), 1);
    tier.insert("d", "4", 1_000, 30);
    tier.insert("e", "5", 1_000, 31);
    assert!(!tier.contains_key("b"));
    assert!(tier.contains_key("c"));
    assert!(tier.contains_key("d"));
    assert!(tier.contains_key("e"));
}
