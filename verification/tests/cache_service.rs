use std::cell::Cell;

use job_tracker_backend::services::cache::model::{
    ACTIVITY_TTL_MS, ANALYTICS_TTL_MS, MAX_TTL_MS, PROMOTION_TTL_MS,
};
use job_tracker_backend::services::cache::policy::{
    collected, counted, deadline, found, promote, remember, settled, written,
};
use job_tracker_backend::services::cache::stats::MEMORY_RETRIEVAL_MICROS;
use job_tracker_backend::services::cache::{
    CacheError, CacheService, CacheStats, HotKey, MemoryTier, StoreError,
};
use job_tracker_backend::utils::clock::{now_millis, since_epoch, MAX_TIMESTAMP_MS};

const MINUTE: u64 = 60_000;

fn outage() -> CacheError {
    CacheError::DatabaseError("persistent tier unavailable".to_string())
}

#[test]
fn scenario_set_then_get() {
    let mut cache = CacheService::new(16);
    assert_eq!(cache.set_at("k1", "v1", MINUTE, 1_000), Ok(()));
    assert_eq!(cache.get_at("k1", 1_000), Ok("v1".to_string()));
}

#[test]
fn scenario_set_then_get_on_the_wall_clock() {
    let mut cache = CacheService::new(16);
    assert_eq!(cache.set("k1", "v1", MINUTE), Ok(()));
    assert_eq!(cache.get("k1"), Ok("v1".to_string()));
}

#[test]
fn scenario_capacity_two() {
    let mut cache = CacheService::new(2);
    cache.store_in_memory("a", "1", MINUTE, 1_000);
    cache.store_in_memory("b", "2", MINUTE, 1_001);
    cache.store_in_memory("c", "3", MINUTE, 1_002);
    assert_eq!(cache.get_stats_at(1_003).unwrap().total_keys, 2);
    assert_eq!(cache.get_at("a", 1_003), Err(CacheError::NotFound));
    assert_eq!(cache.get_at("b", 1_003), Ok("2".to_string()));
    assert_eq!(cache.get_at("c", 1_003), Ok("3".to_string()));
}

#[test]
fn scenario_pattern_invalidation() {
    let mut cache = CacheService::new(16);
    for key in ["analytics_summary", "activity_patterns", "other"] {
        cache.set_at(key, "v", MINUTE, 1_000).unwrap();
    }
    assert_eq!(cache.invalidate_pattern("analytics"), Ok(2));
    assert!(!cache.memory.contains_key("analytics_summary"));
    assert!(cache.memory.contains_key("activity_patterns"));
    assert!(cache.memory.contains_key("other"));
    assert_eq!(cache.store.get("analytics_summary", 1_000).ok(), Some(None));
    assert_eq!(cache.store.get("activity_patterns", 1_000).ok(), Some(Some("v".to_string())));
    assert_eq!(cache.store.get("other", 1_000).ok(), Some(Some("v".to_string())));
    assert_eq!(cache.memory.len(), 2);
    assert_eq!(cache.store.len(), 2);
}

#[test]
fn scenario_expired_persistent_record() {
    let mut cache = CacheService::new(16);
    cache.store.upsert("stale", "v", 500).unwrap();
    assert_eq!(cache.cleanup_expired_at(1_000), Ok(1));
    assert_eq!(cache.store.len(), 0);
    assert_eq!(cache.get_at("stale", 1_000), Err(CacheError::NotFound));
}

#[test]
fn round_trip_holds_until_the_lifetime_has_passed() {
    let mut cache = CacheService::new(4);
    cache.set_at("k", "payload", 100, 5_000).unwrap();
    assert_eq!(cache.get_at("k", 5_000), Ok("payload".to_string()));
    assert_eq!(cache.get_at("k", 5_099), Ok("payload".to_string()));
    assert_eq!(cache.get_at("k", 5_100), Err(CacheError::NotFound));
}

#[test]
fn round_trip_survives_store_outage() {
    let mut cache = CacheService::new(4);
    cache.store.set_available(false);
    assert_eq!(cache.set_at("k", "v", 100, 0), Err(outage()));
    assert_eq!(cache.get_at("k", 1), Ok("v".to_string()));
}

#[test]
fn set_replaces_in_both_tiers() {
    let mut cache = CacheService::new(4);
    cache.set_at("k", "old", 100, 0).unwrap();
    cache.set_at("k", "new", 100, 10).unwrap();
    assert_eq!(cache.memory.len(), 1);
    assert_eq!(cache.store.len(), 1);
    assert_eq!(cache.get_from_memory("k", 20), Ok("new".to_string()));
    assert_eq!(cache.get_from_database("k", 20), Ok("new".to_string()));
    assert_eq!(cache.get_from_database("k", 109), Ok("new".to_string()));
    assert_eq!(cache.get_from_database("k", 110), Err(CacheError::NotFound));
}

#[test]
fn expiry_then_cleanup_removes_the_key_from_the_count() {
    let mut cache = CacheService::new(4);
    cache.set_at("k", "v", 100, 1_000).unwrap();
    cache.set_at("keep", "v", 10_000, 1_000).unwrap();
    assert_eq!(cache.get_stats_at(1_000).unwrap().total_keys, 4);
    assert_eq!(cache.get_at("k", 1_100), Err(CacheError::NotFound));
    assert_eq!(cache.cleanup_expired_at(1_100), Ok(1));
    assert_eq!(cache.get_stats_at(1_100).unwrap().total_keys, 2);
    assert!(!cache.memory.contains_key("k"));
    assert_eq!(cache.store.len(), 1);
}

#[test]
fn cleanup_sweeps_both_tiers() {
    let mut cache = CacheService::new(4);
    cache.set_at("a", "1", 100, 0).unwrap();
    cache.set_at("b", "2", 200, 0).unwrap();
    cache.set_at("c", "3", 300, 0).unwrap();
    assert_eq!(cache.cleanup_expired_at(200), Ok(4));
    assert_eq!(cache.memory.len(), 1);
    assert_eq!(cache.store.len(), 1);
    assert_eq!(cache.cleanup_expired_at(200), Ok(0));
}

#[test]
fn cleanup_during_outage_sweeps_memory_and_fails() {
    let mut cache = CacheService::new(4);
    cache.set_at("a", "1", 100, 0).unwrap();
    cache.store.set_available(false);
    assert_eq!(cache.cleanup_expired_at(200), Err(outage()));
    assert_eq!(cache.memory.len(), 0);
    assert_eq!(cache.store.len(), 1);
}

#[test]
fn get_promotes_with_default_lifetime() {
    let mut cache = CacheService::new(4);
    cache.store.upsert("k", "v", 1_010).unwrap();
    assert_eq!(cache.memory.len(), 0);
    assert_eq!(cache.get_at("k", 1_000), Ok("v".to_string()));
    assert!(cache.memory.contains_key("k"));
    assert_eq!(cache.get_from_database("k", 1_010), Err(CacheError::NotFound));
    assert_eq!(cache.get_at("k", 1_000 + PROMOTION_TTL_MS - 1), Ok("v".to_string()));
    assert_eq!(cache.get_at("k", 1_000 + PROMOTION_TTL_MS), Err(CacheError::NotFound));
    assert_eq!(PROMOTION_TTL_MS, 30 * MINUTE);
}

#[test]
fn promotion_respects_capacity() {
    let mut cache = CacheService::new(1);
    cache.store.upsert("cold", "c", 10_000).unwrap();
    cache.store_in_memory("hot", "h", MINUTE, 0);
    assert_eq!(cache.get_at("cold", 5), Ok("c".to_string()));
    assert_eq!(cache.memory.len(), 1);
    assert!(cache.memory.contains_key("cold"));
}

#[test]
fn get_downgrades_read_failure_to_miss() {
    let mut cache = CacheService::new(4);
    cache.store.upsert("k", "v", 10_000).unwrap();
    cache.store.set_available(false);
    assert_eq!(cache.get_at("k", 0), Err(CacheError::NotFound));
    assert_eq!(cache.get_from_database("k", 0), Err(CacheError::NotFound));
    assert_eq!(cache.memory.len(), 0);
}

#[test]
fn memory_hit_does_not_need_the_store() {
    let mut cache = CacheService::new(4);
    cache.set_at("k", "v", MINUTE, 0).unwrap();
    cache.store.set_available(false);
    assert_eq!(cache.get_at("k", 1), Ok("v".to_string()));
}

#[test]
fn store_failure_on_write_surfaces() {
    let mut cache = CacheService::new(4);
    cache.store.set_available(false);
    assert_eq!(cache.store_in_database("k", "v", 10, 0), Err(outage()));
    assert_eq!(cache.invalidate("k"), Err(outage()));
    assert_eq!(cache.invalidate_pattern("k"), Err(outage()));
    assert_eq!(cache.get_stats_at(0), Err(outage()));
}

#[test]
fn invalidate_removes_from_both_tiers() {
    let mut cache = CacheService::new(4);
    cache.set_at("k", "v", MINUTE, 0).unwrap();
    cache.set_at("j", "w", MINUTE, 0).unwrap();
    assert_eq!(cache.invalidate("k"), Ok(()));
    assert_eq!(cache.get_at("k", 1), Err(CacheError::NotFound));
    assert_eq!(cache.get_at("j", 1), Ok("w".to_string()));
    assert_eq!(cache.invalidate("k"), Ok(()));
}

#[test]
fn invalidate_pattern_counts_each_tier() {
    let mut cache = CacheService::new(2);
    cache.set_at("m1", "v", MINUTE, 0).unwrap();
    cache.set_at("m2", "v", MINUTE, 1).unwrap();
    cache.set_at("m3", "v", MINUTE, 2).unwrap();
    assert_eq!(cache.invalidate_pattern("m"), Ok(5));
    assert_eq!(cache.memory.len(), 0);
    assert_eq!(cache.store.len(), 0);
}

#[test]
fn invalidate_pattern_wildcard_reaches_further_in_the_store() {
    let mut cache = CacheService::new(8);
    cache.set_at("a_b", "v", MINUTE, 0).unwrap();
    cache.set_at("axb", "v", MINUTE, 0).unwrap();
    assert_eq!(cache.invalidate_pattern("a_b"), Ok(3));
    assert!(cache.memory.contains_key("axb"));
    assert_eq!(cache.store.len(), 0);
}

#[test]
fn get_or_compute_runs_compute_on_full_miss_only() {
    let mut cache = CacheService::new(4);
    let calls = Cell::new(0u32);
    let r = cache.get_or_compute_at(
        "k",
        MINUTE,
        || {
            calls.set(calls.get() + 1);
            Ok("computed".to_string())
        },
        0,
    );
    assert_eq!(r, Ok("computed".to_string()));
    let r = cache.get_or_compute_at(
        "k",
        MINUTE,
        || {
            calls.set(calls.get() + 1);
            Ok("again".to_string())
        },
        1,
    );
    assert_eq!(r, Ok("computed".to_string()));
    assert_eq!(calls.get(), 1);
    assert_eq!(cache.get_from_database("k", 1), Ok("computed".to_string()));
}

#[test]
fn get_or_compute_takes_value_from_store_without_computing() {
    let mut cache = CacheService::new(4);
    cache.store.upsert("k", "stored", 10_000).unwrap();
    let calls = Cell::new(0u32);
    let r = cache.get_or_compute_at(
        "k",
        MINUTE,
        || {
            calls.set(calls.get() + 1);
            Ok("computed".to_string())
        },
        0,
    );
    assert_eq!(r, Ok("stored".to_string()));
    assert_eq!(calls.get(), 0);
}

#[test]
fn get_or_compute_hands_on_compute_error_and_caches_nothing() {
    let mut cache = CacheService::new(4);
    let r = cache.get_or_compute_at(
        "k",
        MINUTE,
        || Err(CacheError::SerializationError("bad shape".to_string())),
        0,
    );
    assert_eq!(r, Err(CacheError::SerializationError("bad shape".to_string())));
    assert_eq!(cache.memory.len(), 0);
    assert_eq!(cache.store.len(), 0);
}

#[test]
fn get_or_compute_surfaces_write_failure() {
    let mut cache = CacheService::new(4);
    cache.store.set_available(false);
    let r = cache.get_or_compute_at("k", MINUTE, || Ok("v".to_string()), 0);
    assert_eq!(r, Err(outage()));
    assert_eq!(cache.get_from_memory("k", 0), Ok("v".to_string()));
}

#[test]
fn get_or_compute_on_the_wall_clock() {
    let mut cache = CacheService::new(4);
    let r = cache.get_or_compute("k", MINUTE, || Ok("v".to_string()));
    assert_eq!(r, Ok("v".to_string()));
    assert_eq!(cache.get("k"), Ok("v".to_string()));
}

#[test]
fn complete_compute_for_each_outcome() {
    let mut cache = CacheService::new(4);
    assert_eq!(
        cache.complete_compute("k", 10, Ok("v".to_string()), 100),
        Ok("v".to_string())
    );
    assert_eq!(cache.get_at("k", 109), Ok("v".to_string()));
    assert_eq!(
        cache.complete_compute("j", 10, Err(CacheError::NotFound), 100),
        Err(CacheError::NotFound)
    );
    assert_eq!(
        cache.complete_compute("j", 10, Err(CacheError::DatabaseError("down".to_string())), 100),
        Err(CacheError::DatabaseError("down".to_string()))
    );
    assert!(!cache.memory.contains_key("j"));
}

#[test]
fn stats_formulas() {
    let mut cache = CacheService::new(8);
    cache.set_at("a", "1", 100, 0).unwrap();
    cache.set_at("b", "2", 1_000, 0).unwrap();
    cache.store.upsert("c", "3", 50).unwrap();
    cache.get_at("a", 1).unwrap();
    cache.get_at("a", 2).unwrap();
    cache.get_at("b", 3).unwrap();
    let stats = cache.get_stats_at(100).unwrap();
    assert_eq!(
        stats,
        CacheStats {
            total_keys: 5,
            expired_keys: 2,
            memory_usage_kib: 2,
            total_hits: 3,
            average_retrieval_micros: 500,
        }
    );
    assert_eq!(stats.hit_ratio(), (3, 5));
    assert_eq!(MEMORY_RETRIEVAL_MICROS, 500);
}

#[test]
fn stats_of_empty_cache() {
    let cache = CacheService::new(8);
    let stats = cache.get_stats_at(0).unwrap();
    assert_eq!(stats.total_keys, 0);
    assert_eq!(stats.expired_keys, 0);
    assert_eq!(stats.memory_usage_kib, 0);
    assert_eq!(stats.hit_ratio(), (0, 1));
    assert!(cache.get_stats().is_ok());
}

#[test]
fn stats_count_a_key_in_both_tiers_twice() {
    let mut cache = CacheService::new(8);
    cache.set_at("k", "v", MINUTE, 0).unwrap();
    assert_eq!(cache.get_stats_at(0).unwrap().total_keys, 2);
}

#[test]
fn warm_cache_seeds_hot_keys() {
    let mut cache = CacheService::new(8);
    assert_eq!(cache.warm_cache_at(1_000), Ok(()));
    assert_eq!(
        cache.get_at("analytics_summary", 1_000),
        Ok("{\"cached\":true,\"total_applications\":0,\"total_students\":0}".to_string())
    );
    assert_eq!(
        cache.get_at("activity_patterns", 1_000),
        Ok("{\"cached\":true,\"patterns\":[]}".to_string())
    );
    assert_eq!(cache.get_from_memory("activity_patterns", 1_000 + ACTIVITY_TTL_MS - 1).is_ok(), true);
    assert_eq!(
        cache.get_from_memory("activity_patterns", 1_000 + ACTIVITY_TTL_MS),
        Err(CacheError::NotFound)
    );
    assert_eq!(
        cache.get_from_database("analytics_summary", 1_000 + ANALYTICS_TTL_MS),
        Err(CacheError::NotFound)
    );
    assert_eq!(ANALYTICS_TTL_MS, 30 * MINUTE);
    assert_eq!(ACTIVITY_TTL_MS, 15 * MINUTE);
}

#[test]
fn warm_cache_keeps_what_is_cached() {
    let mut cache = CacheService::new(8);
    cache.set_at("analytics_summary", "{\"total_students\":7}", MINUTE, 0).unwrap();
    assert_eq!(cache.warm_cache_at(1), Ok(()));
    assert_eq!(cache.get_at("analytics_summary", 2), Ok("{\"total_students\":7}".to_string()));
}

#[test]
fn warm_cache_ignores_store_outage() {
    let mut cache = CacheService::new(8);
    cache.store.set_available(false);
    assert_eq!(cache.warm_cache(), Ok(()));
    assert_eq!(cache.memory.len(), 2);
    assert_eq!(cache.store.len(), 0);
}

#[test]
fn cleanup_on_the_wall_clock_removes_long_expired_rows() {
    let mut cache = CacheService::new(8);
    cache.store.upsert("ancient", "v", 1).unwrap();
    cache.store.upsert("far_future", "v", u64::MAX).unwrap();
    assert_eq!(cache.cleanup_expired(), Ok(1));
    assert_eq!(cache.store.len(), 1);
}

#[test]
fn clock_reads_a_present_day_time() {
    let now = now_millis();
    assert!(now > 1_600_000_000_000);
    assert!(now <= MAX_TIMESTAMP_MS);
    assert_eq!(MAX_TIMESTAMP_MS, i64::MAX as u64);
    assert_eq!(MAX_TTL_MS, i64::MAX as u64);
}

#[test]
fn policy_found() {
    assert_eq!(found(Ok(Some("v".to_string()))), Ok("v".to_string()));
    assert_eq!(found(Ok(None)), Err(CacheError::NotFound));
    assert_eq!(
        found(Err(StoreError { message: "connection refused".to_string() })),
        Err(CacheError::NotFound)
    );
}

#[test]
fn policy_promote() {
    let mut memory = MemoryTier::new(2);
    assert_eq!(promote(&mut memory, "k", Ok(Some("v".to_string())), 10), Ok("v".to_string()));
    assert_eq!(memory.lookup("k", 10 + PROMOTION_TTL_MS - 1), Some("v".to_string()));
    assert_eq!(promote(&mut memory, "j", Ok(None), 10), Err(CacheError::NotFound));
    assert_eq!(
        promote(&mut memory, "j", Err(StoreError { message: "timeout".to_string() }), 10),
        Err(CacheError::NotFound)
    );
    assert_eq!(memory.len(), 1);
}

#[test]
fn policy_written_counted_collected() {
    assert_eq!(written(Ok(())), Ok(()));
    assert_eq!(
        written(Err(StoreError { message: "constraint".to_string() })),
        Err(CacheError::DatabaseError("constraint".to_string()))
    );
    assert_eq!(counted(3, Ok(4)), Ok(7));
    assert_eq!(
        counted(3, Err(StoreError { message: "gone".to_string() })),
        Err(CacheError::DatabaseError("gone".to_string()))
    );
    assert_eq!(
        collected(2, 9, Ok((5, 1))),
        Ok(CacheStats {
            total_keys: 7,
            expired_keys: 1,
            memory_usage_kib: 2,
            total_hits: 9,
            average_retrieval_micros: 500,
        })
    );
    assert_eq!(
        collected(2, 9, Err(StoreError { message: "gone".to_string() })),
        Err(CacheError::DatabaseError("gone".to_string()))
    );
}

#[test]
fn warm_computes_what_is_missing() {
    let mut cache = CacheService::new(8);
    cache.set_at("b", "cached", MINUTE, 0).unwrap();
    let hot = vec![
        HotKey { key: "a".to_string(), ttl: 100 },
        HotKey { key: "b".to_string(), ttl: 100 },
        HotKey { key: "c".to_string(), ttl: 200 },
    ];
    let calls = Cell::new(0u32);
    let r = cache.warm_at(
        &hot,
        |key: &str| {
            calls.set(calls.get() + 1);
            Ok(format!("fresh {}", key))
        },
        10,
    );
    assert_eq!(r, Ok(()));
    assert_eq!(calls.get(), 2);
    assert_eq!(cache.get_at("a", 109), Ok("fresh a".to_string()));
    assert_eq!(cache.get_at("a", 110), Err(CacheError::NotFound));
    assert_eq!(cache.get_at("b", 11), Ok("cached".to_string()));
    assert_eq!(cache.get_at("c", 209), Ok("fresh c".to_string()));
    assert_eq!(cache.store.len(), 3);
}

#[test]
fn warm_passes_over_failures() {
    let mut cache = CacheService::new(8);
    let hot = vec![
        HotKey { key: "bad".to_string(), ttl: 100 },
        HotKey { key: "good".to_string(), ttl: 100 },
    ];
    let r = cache.warm_at(
        &hot,
        |key: &str| {
            if key == "bad" {
                Err(CacheError::DatabaseError("query failed".to_string()))
            } else {
                Ok("v".to_string())
            }
        },
        0,
    );
    assert_eq!(r, Ok(()));
    assert!(!cache.memory.contains_key("bad"));
    assert_eq!(cache.get_at("good", 1), Ok("v".to_string()));
    assert_eq!(cache.warm(&Vec::new(), |_key: &str| Ok(String::new())), Ok(()));
    assert_eq!(cache.warm(&hot, |_key: &str| Ok("w".to_string())), Ok(()));
    assert_eq!(cache.get("bad"), Ok("w".to_string()));
}

#[test]
fn warm_repeated_key_is_computed_once() {
    let mut cache = CacheService::new(8);
    let hot = vec![
        HotKey { key: "k".to_string(), ttl: 100 },
        HotKey { key: "k".to_string(), ttl: 100 },
    ];
    let calls = Cell::new(0u32);
    cache
        .warm_at(
            &hot,
            |_key: &str| {
                calls.set(calls.get() + 1);
                Ok("v".to_string())
            },
            0,
        )
        .unwrap();
    assert_eq!(calls.get(), 1);
}

#[test]
fn reading_before_the_epoch_counts_as_the_epoch() {
    assert_eq!(since_epoch(-1), 0);
    assert_eq!(since_epoch(i64::MIN), 0);
    assert_eq!(since_epoch(0), 0);
    assert_eq!(since_epoch(1_700_000_000_123), 1_700_000_000_123);
    assert_eq!(since_epoch(i64::MAX), MAX_TIMESTAMP_MS);
}

#[test]
fn capacity_zero_serves_from_the_persistent_tier() {
    let mut cache = CacheService::new(0);
    cache.store_in_memory("a", "1", MINUTE, 0);
    assert_eq!(cache.memory.len(), 0);
    assert_eq!(cache.set_at("k", "v", MINUTE, 0), Ok(()));
    assert_eq!(cache.memory.len(), 0);
    assert_eq!(cache.get_at("k", 1), Ok("v".to_string()));
    assert_eq!(cache.memory.len(), 0);
    assert_eq!(cache.get_stats_at(1).unwrap().total_keys, 1);
    cache.store.set_available(false);
    assert_eq!(cache.get_at("k", 1), Err(CacheError::NotFound));
}

#[test]
fn policy_deadline() {
    assert_eq!(deadline(1_000, 500), 1_500);
    assert_eq!(deadline(1_000, 0), 1_000);
    assert_eq!(deadline(1_000, -400), 600);
    assert_eq!(deadline(1_000, -1_000), 0);
    assert_eq!(deadline(1_000, -1_001), 0);
    assert_eq!(deadline(0, i64::MIN), 0);
    assert_eq!(deadline(MAX_TIMESTAMP_MS, i64::MIN), 0);
    assert_eq!(deadline(MAX_TIMESTAMP_MS, i64::MAX), u64::MAX - 1);
    assert_eq!(deadline(5, -4), 1);
}

#[test]
fn policy_remember() {
    let mut memory = MemoryTier::new(2);
    remember(&mut memory, "k", "old", 100, 0);
    assert_eq!(memory.lookup("k", 50), Some("old".to_string()));
    remember(&mut memory, "k", "new", 0, 60);
    assert!(!memory.contains_key("k"));
    remember(&mut memory, "k", "v", 10, 60);
    remember(&mut memory, "k", "gone", -5, 61);
    assert_eq!(memory.lookup("k", 61), None);
    assert_eq!(memory.len(), 0);
}

#[test]
fn policy_settled() {
    assert_eq!(settled(Ok("v".to_string()), Ok(())), Ok("v".to_string()));
    assert_eq!(
        settled(Ok("v".to_string()), Err(CacheError::DatabaseError("down".to_string()))),
        Err(CacheError::DatabaseError("down".to_string()))
    );
    assert_eq!(
        settled(Err(CacheError::SerializationError("shape".to_string())), Ok(())),
        Err(CacheError::SerializationError("shape".to_string()))
    );
    assert_eq!(
        settled(Err(CacheError::NotFound), Err(CacheError::DatabaseError("down".to_string()))),
        Err(CacheError::NotFound)
    );
}
