use meta_media_search::cache::{CacheStats, SearchCache};

#[test]
fn test_cache_operations() {
    let mut cache = SearchCache::new(2);
    cache.set("query1".to_string(), "results1".to_string(), 1);
    assert_eq!(cache.get("query1"), Some("results1".to_string()));
    assert_eq!(cache.get("query2"), None);
}

#[test]
fn oldest_entry_is_evicted() {
    let mut cache = SearchCache::new(2);
    cache.set("a".to_string(), "ra".to_string(), 10);
    cache.set("b".to_string(), "rb".to_string(), 20);
    cache.set("c".to_string(), "rc".to_string(), 30);
    assert_eq!(cache.get("a"), None);
    assert_eq!(cache.get("b"), Some("rb".to_string()));
    assert_eq!(cache.get("c"), Some("rc".to_string()));
    assert_eq!(cache.stats(), CacheStats { size: 2, max_size: 2 });
}

#[test]
fn rewriting_a_key_replaces_and_refreshes_it() {
    let mut cache = SearchCache::new(2);
    cache.set("a".to_string(), "old".to_string(), 1);
    cache.set("b".to_string(), "rb".to_string(), 2);
    cache.set("a".to_string(), "new".to_string(), 3);
    assert_eq!(cache.stats().size, 2);
    cache.set("c".to_string(), "rc".to_string(), 4);
    assert_eq!(cache.get("a"), Some("new".to_string()));
    assert_eq!(cache.get("b"), None);
}

#[test]
fn eviction_follows_timestamps_not_order() {
    let mut cache = SearchCache::new(2);
    cache.set("late".to_string(), "x".to_string(), 50);
    cache.set("early".to_string(), "y".to_string(), 5);
    cache.set("mid".to_string(), "z".to_string(), 20);
    assert_eq!(cache.get("early"), None);
    assert_eq!(cache.get("late"), Some("x".to_string()));
}

#[test]
fn zero_capacity_keeps_nothing() {
    let mut cache = SearchCache::new(0);
    cache.set("a".to_string(), "ra".to_string(), 1);
    assert_eq!(cache.get("a"), None);
    assert_eq!(cache.stats(), CacheStats { size: 0, max_size: 0 });
}

#[test]
fn clear_empties_cache() {
    let mut cache = SearchCache::new(3);
    cache.set("a".to_string(), "ra".to_string(), 1);
    cache.clear();
    assert_eq!(cache.get("a"), None);
    assert_eq!(cache.stats().size, 0);
}
