use tollo::channel::Channel;
use tollo::playlist::parse_playlist;
use tollo::result_cache::{
    cleanup_expired_entries, clear_advanced_cache, evict_if_needed, find_best_cached_prefix,
    get_cache_stats, insert, lookup_exact, make_cache_key, AdvancedSearchCacheEntry, SearchCache,
    CACHE_TTL_MS, MAX_CACHE_ENTRIES, MAX_TOTAL_RESULTS,
};

fn channels(n: usize) -> Vec<Channel> {
    let mut text = String::new();
    for i in 0..n {
        text.push_str(&format!("#EXTINF:-1,Channel {}\nhttp://s/{}\n", i, i));
    }
    parse_playlist(&text)
}

fn total(cache: &SearchCache) -> usize {
    cache.entries.iter().map(|e| e.result_size).sum()
}

#[test]
fn cache_key_ignores_letter_case() {
    let a = make_cache_key("News", Some(3));
    let b = make_cache_key("news", Some(3));
    assert_eq!(a.query, b.query);
    assert_eq!(a.query, "news");
    assert_eq!(a.channel_list_id, Some(3));
}

#[test]
fn differently_cased_lookup_hits_the_same_entry() {
    let mut cache = SearchCache::new();
    insert(&mut cache, "News".to_string(), Some(1), channels(2), 1_000);
    let hit = lookup_exact(&mut cache, "news", Some(1), 2_000).unwrap();
    assert_eq!(hit, channels(2));
    assert_eq!(cache.entries.len(), 1);
    assert_eq!(cache.entries[0].access_count, 2);
    assert_eq!(cache.entries[0].last_accessed, 2_000);
    insert(&mut cache, "NEWS".to_string(), Some(1), channels(1), 3_000);
    assert_eq!(cache.entries.len(), 1);
    assert_eq!(cache.entries[0].query, "NEWS");
    assert!(lookup_exact(&mut cache, "news", Some(2), 3_000).is_none());
    assert!(lookup_exact(&mut cache, "news", None, 3_000).is_none());
}

#[test]
fn expired_entry_is_never_returned() {
    let mut cache = SearchCache::new();
    insert(&mut cache, "news".to_string(), None, channels(1), 10_000);
    assert!(lookup_exact(&mut cache, "news", None, 10_000 + CACHE_TTL_MS).is_some());
    assert!(lookup_exact(&mut cache, "news", None, 10_001 + CACHE_TTL_MS).is_none());
    assert!(lookup_exact(&mut cache, "news", None, 9_999).is_none());
    assert_eq!(cache.entries.len(), 1);
    cleanup_expired_entries(&mut cache, 10_001 + CACHE_TTL_MS);
    assert!(cache.entries.is_empty());
}

#[test]
fn entry_new_and_access() {
    let mut e = AdvancedSearchCacheEntry::new("Sport".to_string(), channels(3), Some(7), 5);
    assert_eq!(e.normalized, "sport");
    assert_eq!(e.result_size, 3);
    assert_eq!(e.access_count, 1);
    assert_eq!((e.timestamp, e.last_accessed), (5, 5));
    e.access(9);
    assert_eq!((e.access_count, e.last_accessed, e.timestamp), (2, 9, 5));
    assert!(!e.is_expired(10, 15));
    assert!(e.is_expired(10, 16));
    assert!(e.is_expired(10, 4));
}

#[test]
fn oldest_access_is_evicted_first() {
    let mut cache = SearchCache::new();
    for i in 0..(MAX_CACHE_ENTRIES as u64 + 1) {
        insert(&mut cache, format!("q{}", i), None, Vec::new(), 1_000 + i);
    }
    // The first entry inserted is used last, so the second one is the oldest.
    lookup_exact(&mut cache, "q0", None, 5_000).unwrap();
    evict_if_needed(&mut cache, 6_000);
    assert_eq!(cache.entries.len(), MAX_CACHE_ENTRIES);
    let queries: Vec<String> = cache.entries.iter().map(|e| e.query.clone()).collect();
    assert!(queries.contains(&"q0".to_string()));
    assert!(!queries.contains(&"q1".to_string()));
    assert!(queries.contains(&"q2".to_string()));
}

#[test]
fn eviction_keeps_both_bounds() {
    let mut cache = SearchCache::new();
    for i in 0..12u64 {
        insert(&mut cache, format!("big{}", i), None, channels(5_000), 100 + i);
    }
    assert!(total(&cache) > MAX_TOTAL_RESULTS);
    evict_if_needed(&mut cache, 200);
    assert!(total(&cache) <= MAX_TOTAL_RESULTS);
    assert!(cache.entries.len() <= MAX_CACHE_ENTRIES);
    assert_eq!(cache.entries.len(), 10);
    assert_eq!(cache.entries[0].query, "big2");
}

#[test]
fn eviction_drops_expired_entries_first() {
    let mut cache = SearchCache::new();
    insert(&mut cache, "old".to_string(), None, Vec::new(), 0);
    insert(&mut cache, "new".to_string(), None, Vec::new(), CACHE_TTL_MS);
    evict_if_needed(&mut cache, CACHE_TTL_MS + 1);
    assert_eq!(cache.entries.len(), 1);
    assert_eq!(cache.entries[0].query, "new");
}

#[test]
fn best_prefix_is_the_longest_strictly_shorter_one() {
    let mut cache = SearchCache::new();
    insert(&mut cache, "N".to_string(), Some(1), channels(3), 0);
    insert(&mut cache, "New".to_string(), Some(1), channels(2), 0);
    insert(&mut cache, "news".to_string(), Some(1), channels(1), 0);
    insert(&mut cache, "Newsroom".to_string(), Some(1), channels(4), 0);
    insert(&mut cache, "news".to_string(), Some(2), channels(5), 0);
    let (q, r) = find_best_cached_prefix(&cache, "NEWS 24", Some(1), 10).unwrap();
    assert_eq!(q, "news");
    assert_eq!(r.len(), 1);
    let (q, r) = find_best_cached_prefix(&cache, "news", Some(1), 10).unwrap();
    assert_eq!(q, "New");
    assert_eq!(r.len(), 2);
    assert!(find_best_cached_prefix(&cache, "n", Some(1), 10).is_none());
    assert!(find_best_cached_prefix(&cache, "sport", Some(1), 10).is_none());
    assert!(find_best_cached_prefix(&cache, "news 24", Some(1), CACHE_TTL_MS + 1).is_none());
}

#[test]
fn stats_and_clear() {
    let mut cache = SearchCache::new();
    insert(&mut cache, "a".to_string(), None, channels(3), 0);
    insert(&mut cache, "b".to_string(), None, channels(4), 0);
    let stats = get_cache_stats(&cache);
    assert_eq!(stats.entries, 2);
    assert_eq!(stats.total_results, 7);
    assert_eq!(
        stats.memory_usage_estimate,
        7 * std::mem::size_of::<Channel>() + 2 * std::mem::size_of::<AdvancedSearchCacheEntry>()
    );
    clear_advanced_cache(&mut cache);
    assert!(cache.entries.is_empty());
    assert_eq!(get_cache_stats(&cache).total_results, 0);
}
