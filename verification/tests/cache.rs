//! The cache, with times in nanoseconds.
use update_versions_lsp::cache::{ResolveStep, VersionCache, VersionResult};

const MS: u128 = 1_000_000;
const SEC: u128 = 1_000_000_000;

fn known(version: &str) -> VersionResult {
    VersionResult {
        stable_versions: vec![version.to_string()],
        prerelease: None,
    }
}

fn first(result: &VersionResult) -> Option<&str> {
    result.stable_versions.first().map(String::as_str)
}

#[test]
fn test_cache_get_miss() {
    let cache = VersionCache::new(300_000);
    assert!(cache.get("npm:react", 0).is_none());
}

#[test]
fn test_cache_set_and_get() {
    let mut cache = VersionCache::new(300_000);
    cache.set("npm:react", known("18.2.0"), 7);
    let cached = cache.get("npm:react", 7).unwrap();
    assert_eq!(first(&cached), Some("18.2.0"));
    assert!(cached.prerelease.is_none());
}

#[test]
fn test_cache_ttl_expiry() {
    let mut cache = VersionCache::new(50);
    cache.set("npm:react", known("18.0.0"), 0);
    assert!(cache.get("npm:react", 0).is_some());
    assert!(cache.get("npm:react", 50 * MS - 1).is_some());
    assert!(cache.get("npm:react", 50 * MS).is_none());
    assert!(cache.get("npm:react", 60 * MS).is_none());
}

#[test]
fn test_cache_resolve_returns_cached_without_fetching() {
    let mut cache = VersionCache::new(300_000);
    cache.set("npm:react", known("18.2.0"), 0);
    match cache.start_resolve("npm:react", SEC) {
        ResolveStep::Return(result) => assert_eq!(first(&result), Some("18.2.0")),
        other => panic!("expected a cached result, got {:?}", other),
    }
    assert!(!cache.inflight.contains("npm:react"));
}

#[test]
fn test_cache_resolve_caches_result() {
    let mut cache = VersionCache::new(300_000);
    assert!(matches!(
        cache.start_resolve("npm:lodash", 0),
        ResolveStep::Fetch
    ));
    cache.finish_resolve("npm:lodash", known("4.17.21"), SEC);
    match cache.start_resolve("npm:lodash", 2 * SEC) {
        ResolveStep::Return(result) => assert_eq!(first(&result), Some("4.17.21")),
        other => panic!("expected a cached result, got {:?}", other),
    }
}

#[test]
fn test_cache_resolve_fallthrough_on_sender_drop() {
    let mut cache = VersionCache::new(300_000);
    assert!(matches!(
        cache.start_resolve("npm:lodash", 0),
        ResolveStep::Fetch
    ));
    assert!(matches!(
        cache.start_resolve("npm:lodash", 1),
        ResolveStep::Wait
    ));
    // The one who waited takes the fetch over and ends it.
    cache.take_over("npm:lodash");
    cache.finish_resolve("npm:lodash", known("4.17.21"), 2);
    assert!(cache.get("npm:lodash", 3).is_some());
    assert!(!cache.inflight.contains("npm:lodash"));
}

#[test]
fn test_cache_resolve_deduplication() {
    let mut cache = VersionCache::new(300_000);
    let mut fetches = 0;
    let mut waits = 0;
    for now in 0..5 {
        match cache.start_resolve("npm:react", now) {
            ResolveStep::Fetch => fetches += 1,
            ResolveStep::Wait => waits += 1,
            ResolveStep::Return(_) => unreachable!(),
        }
    }
    assert_eq!((fetches, waits), (1, 4));
    // Another key is fetched all the same.
    assert!(matches!(
        cache.start_resolve("npm:lodash", 5),
        ResolveStep::Fetch
    ));
}

#[test]
fn test_update_ttl_shortens_expiry() {
    let mut cache = VersionCache::new(300_000);
    cache.set("npm:react", known("18.0.0"), 0);
    assert!(cache.get("npm:react", 0).is_some());
    cache.update_ttl(0);
    assert!(cache.get("npm:react", 0).is_none());
}

#[test]
fn test_update_ttl_extends_expiry() {
    let mut cache = VersionCache::new(30);
    cache.set("npm:react", known("18.0.0"), 0);
    assert!(cache.get("npm:react", 50 * MS).is_none());
    cache.update_ttl(300);
    assert!(cache.get("npm:react", 50 * MS).is_some());
    assert!(cache.get("npm:react", 300 * SEC).is_none());
}

#[test]
fn test_purge_expired_removes_stale_entries() {
    let mut cache = VersionCache::new(30);
    cache.set("npm:stale", known("1.0.0"), 0);
    cache.set("npm:fresh", known("2.0.0"), 50 * MS);
    cache.purge_expired(50 * MS);
    assert!(cache.store.get("npm:stale").is_none());
    assert!(cache.store.get("npm:fresh").is_some());
    assert_eq!(
        cache.get("npm:fresh", 51 * MS).map(|r| r.stable_versions),
        Some(vec!["2.0.0".to_string()])
    );
}

#[test]
fn test_purge_expired_empty_cache() {
    let mut cache = VersionCache::new(300_000);
    cache.purge_expired(SEC);
    assert!(cache.is_empty());
}

#[test]
fn setting_a_key_replaces_it_and_leaves_others() {
    let mut cache = VersionCache::new(1_000);
    cache.set("a", known("1.0.0"), 0);
    cache.set("b", known("2.0.0"), 0);
    cache.set("a", known("1.1.0"), 1);
    assert_eq!(first(&cache.get("a", 2).unwrap()), Some("1.1.0"));
    assert_eq!(first(&cache.get("b", 2).unwrap()), Some("2.0.0"));
    assert!(!cache.is_empty());
}

#[test]
fn a_clock_that_goes_back_expires_nothing() {
    let mut cache = VersionCache::new(1);
    cache.set("a", known("1.0.0"), 10 * SEC);
    assert!(cache.get("a", 0).is_some());
}

#[test]
fn the_greatest_lifetime_is_kept_in_bounds() {
    let mut cache = VersionCache::new(1);
    cache.update_ttl(u64::MAX);
    assert_eq!(cache.ttl_ms, u64::MAX);
    cache.update_ttl(u64::MAX / 1_000);
    assert_eq!(cache.ttl_ms, u64::MAX / 1_000 * 1_000);
}

#[test]
fn purging_changes_no_answer() {
    let mut cache = VersionCache::new(30);
    cache.set("a", known("1.0.0"), 0);
    cache.set("b", known("2.0.0"), 20 * MS);
    let before = (cache.get("a", 40 * MS), cache.get("b", 40 * MS));
    cache.purge_expired(35 * MS);
    assert!(before.0.is_none() && cache.get("a", 40 * MS).is_none());
    assert_eq!(
        before.1.map(|r| r.stable_versions),
        cache.get("b", 40 * MS).map(|r| r.stable_versions)
    );
}
