use tollo::channel::Channel;
use tollo::matcher::fuzzy_search;
use tollo::playlist::parse_playlist;
use tollo::search::{SearchEngine, SearchError, SearchSpace, MAINTENANCE_INTERVAL};

const PLAYLIST: &str = "#EXTINF:-1,BBC News HD [UK]\nhttp://1\n#EXTINF:-1,CNN International\nhttp://2\n#EXTINF:-1,BBC One 1080p\nhttp://3\n";

fn loaded_engine(id: Option<i32>) -> SearchEngine {
    let mut engine = SearchEngine::new();
    engine.sources.load_from_content(id, Ok(PLAYLIST.to_string()), 0).unwrap();
    engine
}

fn names(channels: &[Channel]) -> Vec<String> {
    channels.iter().map(|c| c.name.clone()).collect()
}

#[test]
fn scenario_bbc_search() {
    let mut engine = loaded_engine(Some(1));
    let found = engine.search_channels("bbc", Some(1), 10).unwrap();
    assert_eq!(names(&found), vec!["BBC News HD [UK]".to_string(), "BBC One 1080p".to_string()]);
}

#[test]
fn empty_query_returns_the_loaded_channels() {
    let mut engine = loaded_engine(None);
    let loaded = engine.load_channels(None).unwrap();
    let found = engine.search_channels("", None, 10).unwrap();
    assert_eq!(found, loaded);
    assert_eq!(found.len(), 3);
    assert!(engine.results.entries.is_empty());
    assert_eq!(engine.results.hits + engine.results.misses, 0);
}

#[test]
fn search_without_loaded_channels_fails() {
    let mut engine = SearchEngine::new();
    assert_eq!(engine.search_channels("bbc", Some(1), 0), Err(SearchError::ChannelsNotLoaded));
    assert_eq!(engine.search_channels("", Some(1), 0), Err(SearchError::ChannelsNotLoaded));
    let mut other = loaded_engine(Some(2));
    assert_eq!(other.search_channels("bbc", Some(1), 0), Err(SearchError::ChannelsNotLoaded));
}

#[test]
fn differently_cased_searches_share_one_entry() {
    let mut engine = loaded_engine(Some(1));
    let a = engine.search_channels("News", Some(1), 10).unwrap();
    let b = engine.search_channels("news", Some(1), 20).unwrap();
    assert_eq!(a, b);
    assert_eq!(engine.results.entries.len(), 1);
    assert_eq!(engine.results.hits, 1);
    assert_eq!(engine.results.misses, 1);
}

#[test]
fn longer_query_is_narrowed_from_the_shorter_one() {
    let mut engine = loaded_engine(Some(1));
    engine.search_channels("bb", Some(1), 10).unwrap();
    match engine.get_search_space("bbc", Some(1), 11) {
        Ok(SearchSpace::Narrowed(v)) => assert_eq!(v, engine.results.entries[0].results),
        _ => panic!("expected a narrowed search space"),
    }
    let narrowed = engine.search_channels("bbc o", Some(1), 12).unwrap();
    let all = engine.load_channels(Some(1)).unwrap();
    let full = fuzzy_search(&all, "bbc o");
    for c in &narrowed {
        assert!(full.contains(c));
    }
}

#[test]
fn superseded_search_is_cancelled_and_writes_nothing() {
    let mut engine = loaded_engine(Some(1));
    let a = engine.start_search();
    let space = match engine.get_search_space("bbc", Some(1), 10) {
        Ok(SearchSpace::Full(v)) => v,
        _ => panic!("expected the full list"),
    };
    let b = engine.start_search();
    assert!(b > a);
    assert!(!engine.is_active(a));
    let results = fuzzy_search(&space, "bbc");
    let outcome = engine.commit_search(a, "bbc".to_string(), Some(1), results.clone(), 11);
    assert_eq!(outcome, Err(SearchError::Cancelled));
    assert!(engine.results.entries.is_empty());
    let kept = engine.commit_search(b, "bbc".to_string(), Some(1), results.clone(), 12);
    assert_eq!(kept, Ok(results));
    assert_eq!(engine.results.entries.len(), 1);
}

#[test]
fn maintenance_runs_on_every_tenth_search() {
    let mut engine = loaded_engine(None);
    for i in 0..(MAINTENANCE_INTERVAL - 1) {
        engine.search_channels(&format!("q{}", i), None, 0).unwrap();
    }
    assert_eq!(engine.results.entries.len(), 9);
    engine.search_channels("bbc", None, 400_000).unwrap();
    assert_eq!(engine.search_counter, MAINTENANCE_INTERVAL);
    assert_eq!(names(&engine.results.entries[0].results), vec!["BBC News HD [UK]".to_string(), "BBC One 1080p".to_string()]);
    assert_eq!(engine.results.entries.len(), 1);
}

#[test]
fn invalidation_empties_the_caches() {
    let mut engine = loaded_engine(Some(4));
    engine.search_channels("cnn", Some(4), 0).unwrap();
    engine.invalidate_search_cache();
    assert!(engine.results.entries.is_empty());
    engine.invalidate_channel_cache();
    assert!(engine.load_channels(Some(4)).is_none());
    let stats = engine.cache_stats();
    assert_eq!(stats.entries, 0);
    assert_eq!(stats.misses, 1);
}

#[test]
fn provider_failure_leaves_the_slot_unchanged() {
    let mut engine = loaded_engine(Some(1));
    let err = engine.sources.load_from_content(Some(2), Err("offline".to_string()), 5);
    assert_eq!(err, Err("offline".to_string()));
    assert_eq!(engine.load_channels(Some(1)).unwrap().len(), 3);
    assert!(engine.load_channels(Some(2)).is_none());
    let fresh = engine.sources.load_from_content(Some(2), Ok(PLAYLIST.to_string()), 6).unwrap();
    assert_eq!(fresh, parse_playlist(PLAYLIST));
    assert!(engine.load_channels(Some(1)).is_none());
}

#[test]
fn exact_hit_marks_the_entry_and_stores_nothing_new() {
    let mut engine = loaded_engine(Some(1));
    engine.search_channels("News", Some(1), 100).unwrap();
    assert_eq!(engine.results.entries[0].timestamp, 100);
    assert_eq!(engine.results.entries[0].query, "News");
    engine.search_channels("NEWS", Some(1), 200).unwrap();
    assert_eq!(engine.results.entries.len(), 1);
    assert_eq!(engine.results.entries[0].access_count, 2);
    assert_eq!(engine.results.entries[0].last_accessed, 200);
    assert_eq!(engine.results.entries[0].timestamp, 100);
}

#[test]
fn failed_search_leaves_the_cache_alone() {
    let mut engine = loaded_engine(Some(1));
    engine.search_channels("bbc", Some(1), 0).unwrap();
    assert_eq!(engine.search_channels("cnn", Some(9), 0), Err(SearchError::ChannelsNotLoaded));
    assert_eq!(engine.results.entries.len(), 1);
    assert_eq!(engine.results.misses, 2);
}
